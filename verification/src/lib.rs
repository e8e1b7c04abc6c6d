pub mod all_rooms;
pub mod entry_order;
pub mod json;
pub mod keyed;
pub mod live_tail;
pub mod read_receipts;
pub mod readiness;
pub mod room_cache;
pub mod room_list;
pub mod room_list_service;
pub mod room_pagination;
pub mod room_subscriptions;
pub mod signature_upload;
pub mod sliding_sync_cache;
pub mod text;
pub mod thread_list;
pub mod timeline_pagination;
pub mod vector_diff;
