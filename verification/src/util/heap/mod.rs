pub mod chunk_map;
pub mod page_resource;
