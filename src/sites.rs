use vstd::prelude::*;
use vstd::slice::slice_to_vec;
use vstd::utf8::{decode_utf8, encode_utf8, valid_utf8};
use crate::codec::{decode_site, encode_site, is_site_record, site_of_record, site_record};
use crate::digest::{digest_of, sha256_hex};
use crate::store::{site_key, site_key_bytes, ops_view, BatchOp, OpView, Update};
use crate::types::{AssetType, Error, DigestAlgo, DigestType, DigestView, File, FileView, Site, SiteView};

verus! {

/// The digest that names a blob with these bytes.
pub open spec fn digest_view_of(content: Seq<u8>) -> DigestView {
    DigestView {
        algo: DigestAlgo::SHA256,
        digest_type: DigestType::Uncompressed,
        value: sha256_hex(content),
    }
}

/// The key under which the blob of a digest is stored.
pub open spec fn blob_key(d: DigestView) -> Seq<u8> {
    encode_utf8(d.value)
}

/// The files of other asset types, in order.
pub open spec fn kept_files(files: Seq<FileView>, t: AssetType) -> Seq<FileView> {
    files.filter(|f: FileView| f.asset_type != t)
}

/// A removal of the blob of each file of this asset type, in order.
pub open spec fn stale_removals(files: Seq<FileView>, t: AssetType) -> Seq<OpView> {
    files.filter(|f: FileView| f.asset_type == t).map_values(|f: FileView| OpView::Remove(blob_key(f.digest)))
}

/// The site once a blob with these bytes is its file of asset type `t`.
pub open spec fn upserted_site(s: SiteView, content: Seq<u8>, t: AssetType) -> SiteView {
    SiteView {
        files: kept_files(s.files, t).push(FileView { digest: digest_view_of(content), asset_type: t }),
        ..s
    }
}

/// The batch of an upsert: drop the superseded blobs, store the new one, rewrite the record.
pub open spec fn upsert_ops(s: SiteView, content: Seq<u8>, t: AssetType) -> Seq<OpView> {
    stale_removals(s.files, t) + seq![
        OpView::Insert(blob_key(digest_view_of(content)), content),
        OpView::Insert(site_key(), site_record(upserted_site(s, content, t))),
    ]
}

/// A new site with no aliases and no files.
pub open spec fn empty_site(name: Seq<char>) -> SiteView {
    SiteView { name, aliases: Seq::empty(), files: Seq::empty() }
}

/// The batch that stores a site's record, and nothing else.
pub open spec fn record_ops(s: SiteView) -> Seq<OpView> {
    seq![OpView::Insert(site_key(), site_record(s))]
}

proof fn lemma_partition_step(files: Seq<FileView>, i: int, t: AssetType)
    requires
        0 <= i < files.len(),
    ensures
        kept_files(files.subrange(0, i + 1), t) == if files[i].asset_type != t {
            kept_files(files.subrange(0, i), t).push(files[i])
        } else {
            kept_files(files.subrange(0, i), t)
        },
        stale_removals(files.subrange(0, i + 1), t) == if files[i].asset_type == t {
            stale_removals(files.subrange(0, i), t).push(OpView::Remove(blob_key(files[i].digest)))
        } else {
            stale_removals(files.subrange(0, i), t)
        },
{
    reveal(Seq::filter);
    let s = files.subrange(0, i + 1);
    assert(s.drop_last() =~= files.subrange(0, i));
    assert(s.last() == files[i]);
    let same = s.filter(|f: FileView| f.asset_type == t);
    let prev = files.subrange(0, i).filter(|f: FileView| f.asset_type == t);
    if files[i].asset_type == t {
        assert(same == prev.push(files[i]));
        assert(same.map_values(|f: FileView| OpView::Remove(blob_key(f.digest)))
            =~= prev.map_values(|f: FileView| OpView::Remove(blob_key(f.digest))).push(OpView::Remove(blob_key(files[i].digest))));
    } else {
        assert(same == prev);
    }
}

fn utf8_bytes(s: &String) -> (r: Vec<u8>)
    ensures
        r@ == encode_utf8(s@),
{
    slice_to_vec(s.as_str().as_bytes())
}

/// Makes `content` the one file of `asset_type` in `site`: the blobs of the
/// files of that type are removed, the new blob is stored under its digest and
/// the record is rewritten, all in one batch on the site's namespace.
pub fn save_file(site: Site, file: String, asset_type: AssetType) -> (r: Update)
    ensures
        r.site@ == upserted_site(site@, encode_utf8(file@), asset_type),
        r.namespace@ == encode_utf8(site@.name),
        ops_view(r.ops@) == upsert_ops(site@, encode_utf8(file@), asset_type),
{
    let content = utf8_bytes(&file);
    let digest = digest_of(content.as_slice());
    let ghost files = site@.files;
    let mut keep: Vec<File> = Vec::new();
    let mut ops: Vec<BatchOp> = Vec::new();
    let mut i: usize = 0;
    while i < site.files.len()
        invariant
            0 <= i <= site.files@.len(),
            files == site@.files,
            keep@.map_values(|f: File| f@) == kept_files(files.subrange(0, i as int), asset_type),
            ops_view(ops@) == stale_removals(files.subrange(0, i as int), asset_type),
        decreases site.files@.len() - i,
    {
        let f = &site.files[i];
        let ghost before_keep = keep@;
        let ghost before_ops = ops@;
        proof {
            lemma_partition_step(files, i as int, asset_type);
            assert(files[i as int] == f@);
        }
        if f.asset_type == asset_type {
            ops.push(BatchOp::Remove(utf8_bytes(&f.digest.value)));
            assert(ops_view(ops@) =~= ops_view(before_ops).push(OpView::Remove(blob_key(f@.digest))));
        } else {
            keep.push(f.clone_file());
            assert(keep@.map_values(|f: File| f@) =~= before_keep.map_values(|f: File| f@).push(f@));
        }
        i = i + 1;
    }
    assert(files.subrange(0, i as int) =~= files);
    let new_file = File { digest, asset_type };
    let blob_key_bytes = utf8_bytes(&new_file.digest.value);
    let ghost kept_before = keep@;
    keep.push(new_file);
    assert(keep@.map_values(|f: File| f@) =~= kept_before.map_values(|f: File| f@).push(keep@.last()@));
    let namespace = utf8_bytes(&site.name);
    let updated = Site { name: site.name, aliases: site.aliases, files: keep };
    assert(updated@ =~= upserted_site(site@, encode_utf8(file@), asset_type));
    let record = encode_site(&updated);
    ops.push(BatchOp::Insert(blob_key_bytes, content));
    ops.push(BatchOp::Insert(site_key_bytes(), record));
    assert(ops_view(ops@) =~= upsert_ops(site@, encode_utf8(file@), asset_type));
    Update { site: updated, namespace, ops }
}

/// A new, empty site; its record is written over whatever the namespace held.
pub fn create_site(site_name: String) -> (r: Update)
    ensures
        r.site@ == empty_site(site_name@),
        r.namespace@ == encode_utf8(site_name@),
        ops_view(r.ops@) == record_ops(r.site@),
{
    let namespace = utf8_bytes(&site_name);
    let site = Site { name: site_name, aliases: Vec::new(), files: Vec::new() };
    assert(site@.aliases =~= Seq::<Seq<char>>::empty());
    assert(site@.files =~= Seq::<FileView>::empty());
    assert(site@ =~= empty_site(site.name@));
    let record = encode_site(&site);
    let mut ops: Vec<BatchOp> = Vec::new();
    ops.push(BatchOp::Insert(site_key_bytes(), record));
    assert(ops_view(ops@) =~= record_ops(site@));
    Update { site, namespace, ops }
}

/// Stores a site's record as it is, in the namespace of its name.
pub fn save_site(site: Site) -> (r: Update)
    ensures
        r.site@ == site@,
        r.namespace@ == encode_utf8(site@.name),
        ops_view(r.ops@) == record_ops(site@),
{
    let namespace = utf8_bytes(&site.name);
    let record = encode_site(&site);
    let mut ops: Vec<BatchOp> = Vec::new();
    ops.push(BatchOp::Insert(site_key_bytes(), record));
    assert(ops_view(ops@) =~= record_ops(site@));
    Update { site, namespace, ops }
}

/// The site named `site_name`, given what the engine holds under the key
/// `site` in the namespace of that name.
pub fn load_site(site_name: String, stored: Option<Vec<u8>>) -> (r: Result<Site, Error>)
    ensures
        stored is None <==> r matches Err(Error::NoSiteWithNameFound(_)),
        r matches Err(Error::NoSiteWithNameFound(n)) ==> n@ == site_name@,
        stored matches Some(b) ==> (r is Ok <==> is_site_record(b@)),
        stored matches Some(b) && !is_site_record(b@) ==> r matches Err(Error::Serialization(_)),
        r matches Ok(s) ==> stored matches Some(b) && s@ == site_of_record(b@),
{
    match stored {
        None => Err(Error::NoSiteWithNameFound(site_name)),
        Some(bytes) => decode_site(bytes.as_slice()),
    }
}

/// The text of the blob stored under `file_digest` in the site's namespace,
/// given what the engine holds under that key.
pub fn load_file(site_name: String, file_digest: String, stored: Option<Vec<u8>>) -> (r: Result<
    String,
    Error,
>)
    ensures
        stored is None <==> r matches Err(Error::NoSuchFileInThisSite(d, n)),
        r matches Err(Error::NoSuchFileInThisSite(d, n)) ==> d@ == file_digest@ && n@ == site_name@,
        stored matches Some(b) ==> (r is Ok <==> valid_utf8(b@)),
        stored matches Some(b) && !valid_utf8(b@) ==> r matches Err(Error::NotValidUTF8(_)),
        r matches Ok(s) ==> stored matches Some(b) && s@ == decode_utf8(b@),
{
    match stored {
        None => Err(Error::NoSuchFileInThisSite(file_digest, site_name)),
        Some(bytes) => match String::from_utf8(bytes) {
            Ok(s) => Ok(s),
            Err(e) => Err(Error::NotValidUTF8(e)),
        },
    }
}

} // verus!
