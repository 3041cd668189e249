use vstd::prelude::*;

mod classify;
mod codec;
mod crawl;
mod extract;
mod record;
mod service;
mod store;
mod text;

pub use classify::verify_path;
pub use classify::is_content_path;
pub use classify::is_date_shape;
pub use classify::is_id_slug;
pub use classify::is_news_segment;
pub use classify::segments_view;
pub use classify::lemma_classification;
pub use record::NewsData;
pub use record::DataSubmission;
pub use record::RecordModel;
pub use record::Timestamp;
pub use record::strings_view;
pub use codec::encode_record;
pub use codec::decode_record;
pub use codec::CodecError;
pub use codec::lemma_record_round_trip;
pub use codec::enc_record;
pub use codec::dec_record;
pub use codec::model_fits;
pub use crawl::CrawlSets;
pub use crawl::article_id;
pub use crawl::lemma_sight_idempotent;
pub use text::normalize_whitespace;
pub use text::normalize_spec;
pub use text::is_space_char;
pub use text::is_forbidden_char;
pub use text::lemma_normalize_no_forbidden;
pub use store::Store;
pub use store::store_contents;
pub use store::batch_contents;
pub use service::HealthcheckResponse;
pub use service::WriteResponse;
pub use service::ReadError;
pub use service::PersistError;
pub use service::SwarmAPI;
pub use service::write_to_db;
pub use service::persist_records;
pub use service::stored_text;
pub use service::records_map;
pub use service::lemma_persist_adds_new_keys;
pub use service::lemma_persist_reapply;
pub use extract::ExtractError;
pub use extract::assemble_record;
pub use extract::extract_page_contents;
pub use extract::extracted;
pub use extract::assembled;
pub use extract::flattened;
pub use extract::opt_str_view;
pub use extract::opt_opt_str_view;
pub use extract::opt_strs_view;
pub use extract::parsed_timestamp;
pub use extract::spec_parse_timestamp;
pub use extract::nonempty_lines;
pub use extract::join_lines;
pub use extract::soup_first_meta_content;
pub use extract::soup_first_meta_text;
pub use extract::soup_all_meta_contents;
pub use extract::soup_all_tag_texts;

verus! {

} // verus!
