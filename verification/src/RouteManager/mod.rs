//! Routes that handlers add while a request is processed; they are mounted
//! at `/` in the server's table once the request is done.
use vstd::prelude::*;

use crate::ordered_map::{keys_sorted, map_of, OrderedMap};
use crate::App::{
    add_handlers, add_route_pub, copy_table, pub_add_multiple_handler, mount_routes, HandleCallback,
    HandlerBTreeMapKeyString, HandlerType, KeyView, RouteMap,
};

verus! {

/// Routes added during a request, and whether any was added.
pub struct RouterManager {
    AddGlobalHandler: HandlerType,
    RouterChange: bool,
}

impl Clone for RouterManager {
    fn clone(&self) -> (r: Self)
        ensures
            r.added() == self.added(),
            r.added_pairs() == self.added_pairs(),
            r.changed() == self.changed(),
            r.added() == map_of(r.added_pairs()),
            keys_sorted::<HandlerBTreeMapKeyString, Seq<usize>>(r.added_pairs()),
    {
        let _ = self.AddGlobalHandler.len();
        RouterManager { AddGlobalHandler: copy_table(&self.AddGlobalHandler), RouterChange: self.RouterChange }
    }
}

impl RouterManager {
    /// The routes added so far.
    pub closed spec fn added(&self) -> RouteMap {
        self.AddGlobalHandler@
    }

    /// The routes added so far, in increasing key order.
    pub closed spec fn added_pairs(&self) -> Seq<(KeyView, Seq<usize>)> {
        self.AddGlobalHandler.pairs()
    }

    /// Whether a route was added.
    pub closed spec fn changed(&self) -> bool {
        self.RouterChange
    }

    /// No routes added.
    pub fn new() -> (r: RouterManager)
        ensures
            r.added() == RouteMap::empty(),
            r.added_pairs() == Seq::<(KeyView, Seq<usize>)>::empty(),
            !r.changed(),
            keys_sorted::<HandlerBTreeMapKeyString, Seq<usize>>(r.added_pairs()),
    {
        RouterManager { AddGlobalHandler: OrderedMap::new(), RouterChange: false }
    }

    /// Adds `handler`, in order, under `key`, and records that routes changed.
    pub fn add_global_handle(&mut self, key: HandlerBTreeMapKeyString, handler: Vec<HandleCallback>)
        ensures
            final(self).added() == add_handlers(old(self).added(), key@, handler@),
            final(self).changed(),
            final(self).added() == map_of(final(self).added_pairs()),
            keys_sorted::<HandlerBTreeMapKeyString, Seq<usize>>(final(self).added_pairs()),
    {
        self.RouterChange = true;
        pub_add_multiple_handler(&mut self.AddGlobalHandler, key, handler);
        let _ = self.AddGlobalHandler.len();
    }

    /// The routes added so far.
    pub fn added_routes(&self) -> (r: &HandlerType)
        ensures
            r@ == self.added(),
            r.pairs() == self.added_pairs(),
            keys_sorted::<HandlerBTreeMapKeyString, Seq<usize>>(r.pairs()),
    {
        let _ = self.AddGlobalHandler.len();
        &self.AddGlobalHandler
    }

    /// Mounts the added routes at `/` in `handler`.
    pub fn ProcessingRouter(&self, handler: &mut HandlerType)
        ensures
            final(handler)@ == mount_routes(old(handler)@, "/"@, self.added_pairs()),
            self.added() == map_of(self.added_pairs()),
            keys_sorted::<HandlerBTreeMapKeyString, Seq<usize>>(self.added_pairs()),
    {
        add_route_pub(handler, String::from_str("/"), &self.AddGlobalHandler)
    }

}

} // verus!
