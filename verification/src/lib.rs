//! An embeddable, in-process cache engine: a typed object store with
//! optional time-to-live expiration, together with Redis-style field-value
//! containers and unique-member sets supporting n-ary set algebra.

mod cache;
mod clock;
mod errors;
mod expiration;
mod field_table;
mod keys;
mod laws;
mod member_set;
mod object;
mod parse;
mod remote;
mod strutil;

pub use cache::apply_op;
pub use cache::container_or_empty;
pub use cache::entry_live;
pub use cache::obj_result_model;
pub use cache::pairs_views;
pub use cache::set_or_empty;
pub use cache::spec_algebra;
pub use cache::spec_algebra_step;
pub use cache::spec_hash_set;
pub use cache::spec_obj_get;
pub use cache::spec_obj_insert;
pub use cache::spec_remove_fields;
pub use cache::spec_set_add;
pub use cache::spec_set_move;
pub use cache::spec_set_pairs;
pub use cache::spec_set_rem;
pub use cache::spec_ttl_exp;
pub use cache::strs_set;
pub use cache::strs_views;
pub use cache::MemoryCache;
pub use cache::SetOp;
pub use errors::CacheError;
pub use field_table::FieldTable;
pub use laws::law_add_add_accumulate;
pub use laws::law_add_remove_commute;
pub use laws::law_algebra_pair;
pub use laws::law_insert_get_round_trip;
pub use laws::law_move_semantics;
pub use laws::law_set_add_order_independent;
pub use laws::law_ttl_expiry;
pub use member_set::str_seq_set;
pub use member_set::views_distinct;
pub use member_set::MemberSet;
pub use object::CacheObject;
pub use object::EntryModel;
pub use object::ObjModel;
pub use object::StoredEntry;
pub use parse::is_digit;
pub use parse::parse_i64;
pub use parse::parse_u64;
pub use parse::spec_digits_val;
pub use parse::spec_i64_val;
pub use parse::spec_is_i64_str;
pub use parse::spec_is_u64_str;
pub use remote::find_colon_from;
pub use remote::pick_first_marked;
pub use remote::redis_key_create;
pub use remote::redis_url;
pub use remote::spec_first_colon_at;
pub use remote::spec_redis_url;
pub use remote::split_host;
pub use strutil::str_eq;
pub use expiration::spec_expired;
pub use expiration::Expiration;
pub use keys::gen_key;
pub use keys::spec_gen_key;
