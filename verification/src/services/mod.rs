//! Services around the lesson logic: the offline queue, platform storage
//! and haptics, the Supabase client and the sync service.
pub mod offline_queue;
pub mod platform;
pub mod supabase;
pub mod sync;
