//! A small content store for named sites: each site holds at most one current
//! file per asset type, files are stored under the hex SHA-256 of their bytes,
//! and every change to a site is expressed as one atomic batch on the site's
//! own namespace.
//!
//! The library decides; the embedding application owns the key-value engine.
//! Reads hand the library what the engine returned, writes get back an
//! [`Update`](store::Update) naming the namespace and the batch to apply.

mod types;
mod digest;
mod codec;
mod store;
mod sites;
mod text;
mod registry;
mod laws;

pub use types::{AssetType, Digest, DigestAlgo, DigestType, Error, File, Site};
pub use types::{DigestView, FileView, SiteView};
pub use digest::{digest_of, sha256_hex};
pub use codec::{decode_site, encode_site, is_site_record, site_of_record, site_record};
pub use codec::{asset_tag, algo_tag, digest_type_tag, file_record, files_record};
pub use codec::{len_record, text_record, texts_record};
pub use store::{apply_op, apply_ops, commit, site_key, site_key_bytes, tree_of, ops_view};
pub use store::{BatchOp, OpView, Store, Tree, Update};
pub use sites::{create_site, load_file, load_site, save_file, save_site};
pub use sites::{blob_key, digest_view_of, empty_site, kept_files, record_ops, stale_removals};
pub use sites::{upsert_ops, upserted_site};
pub use registry::{display_name, is_reserved, is_reserved_name, listed_sites, reserved_prefix, site_names};
pub use text::lossy_utf8;
pub use laws::{ever_saved, files_of_type, saved_in_order};
pub use laws::{lemma_digest_deterministic, lemma_namespace_isolation, lemma_one_file_per_type};
pub use laws::{lemma_registry, lemma_round_trip, lemma_site_record_injective, lemma_supersession};
