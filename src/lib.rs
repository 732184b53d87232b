pub mod vector;
pub mod linked_list;
pub mod tail_linked_list;
pub mod tail_linked_list_queue;
pub mod queue_fixed_array;
pub mod hash_table_linear_probing;
pub mod binary_search;
pub mod binary_search_recursive;
