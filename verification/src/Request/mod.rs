pub mod get_http_data;
