# rust_http_web_lib

A small HTTP web framework. `src/` is the library, verified with Verus:

- `App`: route keys (method + path), route tables (`HandlerType`), handler
  registration on `HttpHandler`, and mounting one table under a base path.
- `RouteManager`: routes added by handlers while a request runs.
- `HandleConnection`: which handlers serve a request and in which order,
  the step-by-step dispatch of handlers, the not-found and final handlers,
  and the cache of response bodies.
- `Request::get_http_data`: parsing request lines into method, path,
  version, headers and cookies (the line patterns are matched by the
  `regex` crate); `Set-Cookie` values.
- `Response`: the response a handler builds, and the exact bytes sent.
- `status`: reason phrases of status codes.
- `ordered_map`: the sorted map used for route tables, headers and cookies.
- `text`: string order, trimming, decimal formatting.

Handlers are named by index: `app/` keeps the table of callback functions,
the TCP listener and streams, and runs the loop that calls the handlers the
library's dispatch names and writes the bytes its responses produce.
