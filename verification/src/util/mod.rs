pub mod append_vec;
