use vstd::prelude::*;
use vstd::bytes::lemma_auto_spec_u64_to_from_le_bytes;
use vstd::utf8::{encode_utf8, encode_utf8_decode_utf8, encode_utf8_valid_utf8};
use crate::codec::{
    file_record, files_record, is_site_record, len_record, site_of_record, site_record,
    text_record, texts_record,
};
use crate::digest::sha256_hex;
use crate::registry::{display_name, is_reserved, listed_sites};
use crate::sites::{blob_key, digest_view_of, kept_files, stale_removals, upsert_ops, upserted_site};
use crate::store::{apply_ops, commit, site_key, tree_of, OpView, Store};
use crate::types::{AssetType, FileView, SiteView};

verus! {

proof fn lemma_len_prefix(n1: int, r1: Seq<u8>, n2: int, r2: Seq<u8>)
    requires
        0 <= n1 <= u64::MAX,
        0 <= n2 <= u64::MAX,
        len_record(n1) + r1 == len_record(n2) + r2,
    ensures
        n1 == n2,
        r1 == r2,
{
    lemma_auto_spec_u64_to_from_le_bytes();
    let x = len_record(n1) + r1;
    assert(x.subrange(0, 8) =~= len_record(n1));
    assert(x.subrange(0, 8) =~= len_record(n2));
    assert(r1 =~= x.subrange(8, x.len() as int));
    assert(r2 =~= x.subrange(8, x.len() as int));
}

proof fn lemma_text_prefix(t1: Seq<char>, r1: Seq<u8>, t2: Seq<char>, r2: Seq<u8>)
    requires
        text_record(t1) + r1 == text_record(t2) + r2,
        (text_record(t1) + r1).len() <= u64::MAX,
    ensures
        t1 == t2,
        r1 == r2,
{
    lemma_auto_spec_u64_to_from_le_bytes();
    let e1 = encode_utf8(t1);
    let e2 = encode_utf8(t2);
    assert(text_record(t1) + r1 =~= len_record(e1.len() as int) + (e1 + r1));
    assert(text_record(t2) + r2 =~= len_record(e2.len() as int) + (e2 + r2));
    lemma_len_prefix(e1.len() as int, e1 + r1, e2.len() as int, e2 + r2);
    assert(e1 =~= (e1 + r1).subrange(0, e1.len() as int));
    assert(e2 =~= (e2 + r2).subrange(0, e2.len() as int));
    assert(r1 =~= (e1 + r1).subrange(e1.len() as int, (e1 + r1).len() as int));
    assert(r2 =~= (e2 + r2).subrange(e2.len() as int, (e2 + r2).len() as int));
    encode_utf8_decode_utf8(t1);
    encode_utf8_decode_utf8(t2);
}

proof fn lemma_texts_prefix(ts1: Seq<Seq<char>>, r1: Seq<u8>, ts2: Seq<Seq<char>>, r2: Seq<u8>)
    requires
        ts1.len() == ts2.len(),
        texts_record(ts1) + r1 == texts_record(ts2) + r2,
        (texts_record(ts1) + r1).len() <= u64::MAX,
    ensures
        ts1 == ts2,
        r1 == r2,
    decreases ts1.len(),
{
    if ts1.len() == 0 {
        assert(r1 =~= texts_record(ts1) + r1);
        assert(r2 =~= texts_record(ts2) + r2);
    } else {
        let d1 = ts1.drop_first();
        let d2 = ts2.drop_first();
        assert(texts_record(ts1) + r1 =~= text_record(ts1[0]) + (texts_record(d1) + r1));
        assert(texts_record(ts2) + r2 =~= text_record(ts2[0]) + (texts_record(d2) + r2));
        lemma_text_prefix(ts1[0], texts_record(d1) + r1, ts2[0], texts_record(d2) + r2);
        lemma_texts_prefix(d1, r1, d2, r2);
        assert(ts1 =~= seq![ts1[0]] + d1);
        assert(ts2 =~= seq![ts2[0]] + d2);
    }
}

proof fn lemma_file_prefix(f1: FileView, r1: Seq<u8>, f2: FileView, r2: Seq<u8>)
    requires
        file_record(f1) + r1 == file_record(f2) + r2,
        (file_record(f1) + r1).len() <= u64::MAX,
    ensures
        f1 == f2,
        r1 == r2,
{
    let x = file_record(f1) + r1;
    let a1 = seq![crate::codec::asset_tag(f1.asset_type)] + r1;
    let a2 = seq![crate::codec::asset_tag(f2.asset_type)] + r2;
    assert(x[1] == crate::codec::digest_type_tag(f1.digest.digest_type));
    assert(x[1] == crate::codec::digest_type_tag(f2.digest.digest_type));
    assert(f1.digest.digest_type == f2.digest.digest_type) by {
        assert(f1.digest.digest_type is Compressed <==> x[1] == 1);
        assert(f2.digest.digest_type is Compressed <==> x[1] == 1);
    }
    assert(x.subrange(2, x.len() as int) =~= text_record(f1.digest.value) + a1);
    assert((file_record(f2) + r2).subrange(2, x.len() as int) =~= text_record(f2.digest.value) + a2);
    lemma_text_prefix(f1.digest.value, a1, f2.digest.value, a2);
    assert(a1[0] == a2[0]);
    assert(f1.asset_type == f2.asset_type) by {
        assert(a1[0] == crate::codec::asset_tag(f1.asset_type));
        assert(a2[0] == crate::codec::asset_tag(f2.asset_type));
    }
    assert(r1 =~= a1.drop_first());
    assert(r2 =~= a2.drop_first());
}

proof fn lemma_files_prefix(fs1: Seq<FileView>, r1: Seq<u8>, fs2: Seq<FileView>, r2: Seq<u8>)
    requires
        fs1.len() == fs2.len(),
        files_record(fs1) + r1 == files_record(fs2) + r2,
        (files_record(fs1) + r1).len() <= u64::MAX,
    ensures
        fs1 == fs2,
        r1 == r2,
    decreases fs1.len(),
{
    if fs1.len() == 0 {
        assert(r1 =~= files_record(fs1) + r1);
        assert(r2 =~= files_record(fs2) + r2);
    } else {
        let d1 = fs1.drop_first();
        let d2 = fs2.drop_first();
        assert(files_record(fs1) + r1 =~= file_record(fs1[0]) + (files_record(d1) + r1));
        assert(files_record(fs2) + r2 =~= file_record(fs2[0]) + (files_record(d2) + r2));
        lemma_file_prefix(fs1[0], files_record(d1) + r1, fs2[0], files_record(d2) + r2);
        lemma_files_prefix(d1, r1, d2, r2);
        assert(fs1 =~= seq![fs1[0]] + d1);
        assert(fs2 =~= seq![fs2[0]] + d2);
    }
}

/// Two sites with the same record are the same site.
pub proof fn lemma_site_record_injective(s1: SiteView, s2: SiteView)
    requires
        site_record(s1) == site_record(s2),
        site_record(s1).len() <= u64::MAX,
    ensures
        s1 == s2,
{
    crate::codec::lemma_texts_record_len(s1.aliases);
    crate::codec::lemma_texts_record_len(s2.aliases);
    crate::codec::lemma_files_record_len(s1.files);
    crate::codec::lemma_files_record_len(s2.files);
    let fa1 = len_record(s1.files.len() as int) + files_record(s1.files);
    let fa2 = len_record(s2.files.len() as int) + files_record(s2.files);
    let ta1 = len_record(s1.aliases.len() as int) + (texts_record(s1.aliases) + fa1);
    let ta2 = len_record(s2.aliases.len() as int) + (texts_record(s2.aliases) + fa2);
    lemma_text_prefix(s1.name, ta1, s2.name, ta2);
    lemma_len_prefix(s1.aliases.len() as int, texts_record(s1.aliases) + fa1, s2.aliases.len() as int, texts_record(s2.aliases) + fa2);
    lemma_texts_prefix(s1.aliases, fa1, s2.aliases, fa2);
    lemma_len_prefix(s1.files.len() as int, files_record(s1.files), s2.files.len() as int, files_record(s2.files));
    assert(files_record(s1.files) =~= files_record(s1.files) + Seq::<u8>::empty());
    assert(files_record(s2.files) =~= files_record(s2.files) + Seq::<u8>::empty());
    lemma_files_prefix(s1.files, Seq::empty(), s2.files, Seq::empty());
}

/// Decoding the record of a site gives back that site: for every site whose
/// record fits in memory, the record is recognised and decodes to it.
pub proof fn lemma_round_trip(s: SiteView)
    requires
        site_record(s).len() <= usize::MAX,
    ensures
        is_site_record(site_record(s)),
        site_of_record(site_record(s)) == s,
{
    let b = site_record(s);
    assert(is_site_record(b));
    let t = site_of_record(b);
    lemma_site_record_injective(t, s);
}

/// Equal bytes are named by equal digests.
pub proof fn lemma_digest_deterministic(a: Seq<u8>, b: Seq<u8>)
    requires
        a == b,
    ensures
        digest_view_of(a) == digest_view_of(b),
        sha256_hex(a) == sha256_hex(b),
{
}

/// The files of one asset type.
pub open spec fn files_of_type(files: Seq<FileView>, t: AssetType) -> Seq<FileView> {
    files.filter(|f: FileView| f.asset_type == t)
}

/// The site after saving each (content, asset type) pair in turn.
pub open spec fn saved_in_order(s: SiteView, saves: Seq<(Seq<u8>, AssetType)>) -> SiteView
    decreases saves.len(),
{
    if saves.len() == 0 {
        s
    } else {
        upserted_site(saved_in_order(s, saves.drop_last()), saves.last().0, saves.last().1)
    }
}

pub open spec fn ever_saved(saves: Seq<(Seq<u8>, AssetType)>, t: AssetType) -> bool {
    exists|i: int| 0 <= i < saves.len() && saves[i].1 == t
}

proof fn lemma_kept_of_type(files: Seq<FileView>, kept: AssetType, t: AssetType)
    ensures
        files_of_type(kept_files(files, kept), t).len() == if t == kept {
            0
        } else {
            files_of_type(files, t).len()
        },
    decreases files.len(),
{
    reveal(Seq::filter);
    if files.len() > 0 {
        lemma_kept_of_type(files.drop_last(), kept, t);
        let k = kept_files(files, kept);
        let kd = kept_files(files.drop_last(), kept);
        if files.last().asset_type != kept {
            assert(k == kd.push(files.last()));
            assert(k.drop_last() =~= kd);
        } else {
            assert(k == kd);
        }
    }
}

proof fn lemma_upsert_counts(s: SiteView, c: Seq<u8>, t0: AssetType, t: AssetType)
    ensures
        files_of_type(upserted_site(s, c, t0).files, t).len() == if t == t0 {
            1
        } else {
            files_of_type(s.files, t).len()
        },
{
    reveal(Seq::filter);
    let k = kept_files(s.files, t0);
    let all = upserted_site(s, c, t0).files;
    assert(all.drop_last() =~= k);
    lemma_kept_of_type(s.files, t0, t);
}

/// After saves of any contents in any order, a site holds exactly one file of
/// each asset type that was saved, and its files of the other types as before.
pub proof fn lemma_one_file_per_type(s: SiteView, saves: Seq<(Seq<u8>, AssetType)>, t: AssetType)
    ensures
        files_of_type(saved_in_order(s, saves).files, t).len() == if ever_saved(saves, t) {
            1
        } else {
            files_of_type(s.files, t).len()
        },
    decreases saves.len(),
{
    if saves.len() > 0 {
        let d = saves.drop_last();
        lemma_one_file_per_type(s, d, t);
        lemma_upsert_counts(saved_in_order(s, d), saves.last().0, saves.last().1, t);
        if ever_saved(d, t) {
            let i = choose|i: int| 0 <= i < d.len() && d[i].1 == t;
            assert(saves[i].1 == t);
        }
        if ever_saved(saves, t) && saves.last().1 != t {
            let i = choose|i: int| 0 <= i < saves.len() && saves[i].1 == t;
            assert(d[i].1 == t);
        }
        if saves.last().1 == t {
            assert(saves[saves.len() - 1].1 == t);
        }
    }
}

proof fn lemma_apply_upsert(tree: Map<Seq<u8>, Seq<u8>>, s: SiteView, c: Seq<u8>, t: AssetType)
    ensures
        apply_ops(tree, upsert_ops(s, c, t)) == apply_ops(tree, stale_removals(s.files, t)).insert(
            blob_key(digest_view_of(c)),
            c,
        ).insert(site_key(), site_record(upserted_site(s, c, t))),
{
    let ops = upsert_ops(s, c, t);
    let r = stale_removals(s.files, t);
    assert(ops.drop_last().drop_last() =~= r);
    assert(ops.drop_last().len() > 0);
    assert(apply_ops(tree, ops.drop_last()) == crate::store::apply_op(apply_ops(tree, r), ops.drop_last().last()));
}

/// Saving a second content for an asset type replaces the first: the blob of
/// the first is gone from the site's namespace and the second is stored under
/// its digest. This holds where the two digests differ and neither is the
/// metadata key.
pub proof fn lemma_supersession(db: Store, s: SiteView, c1: Seq<u8>, c2: Seq<u8>, t: AssetType)
    requires
        sha256_hex(c1) != sha256_hex(c2),
        blob_key(digest_view_of(c1)) != site_key(),
        blob_key(digest_view_of(c2)) != site_key(),
    ensures
        ({
            let ns = encode_utf8(s.name);
            let s1 = upserted_site(s, c1, t);
            let db1 = commit(db, ns, upsert_ops(s, c1, t));
            let db2 = commit(db1, ns, upsert_ops(s1, c2, t));
            &&& !tree_of(db2, ns).contains_key(blob_key(digest_view_of(c1)))
            &&& tree_of(db2, ns).contains_key(blob_key(digest_view_of(c2)))
            &&& tree_of(db2, ns)[blob_key(digest_view_of(c2))] == c2
        }),
{
    reveal(Seq::filter);
    let ns = encode_utf8(s.name);
    let s1 = upserted_site(s, c1, t);
    let db1 = commit(db, ns, upsert_ops(s, c1, t));
    let k1 = blob_key(digest_view_of(c1));
    let k2 = blob_key(digest_view_of(c2));
    encode_utf8_decode_utf8(sha256_hex(c1));
    encode_utf8_decode_utf8(sha256_hex(c2));
    assert(k1 != k2);
    let tree1 = tree_of(db1, ns);
    lemma_apply_upsert(tree1, s1, c2, t);
    let same = s1.files.filter(|f: FileView| f.asset_type == t);
    let last = FileView { digest: digest_view_of(c1), asset_type: t };
    assert(s1.files.drop_last() =~= kept_files(s.files, t));
    assert(same == kept_files(s.files, t).filter(|f: FileView| f.asset_type == t).push(last));
    let rm = stale_removals(s1.files, t);
    assert(rm.last() == OpView::Remove(k1));
    assert(rm.len() > 0);
    let before = apply_ops(tree1, rm.drop_last());
    assert(apply_ops(tree1, rm) == before.remove(k1));
}

/// Saving a file to one site leaves every other namespace as it was.
pub proof fn lemma_namespace_isolation(db: Store, s: SiteView, c: Seq<u8>, t: AssetType, other: Seq<u8>)
    requires
        other != encode_utf8(s.name),
    ensures
        tree_of(commit(db, encode_utf8(s.name), upsert_ops(s, c, t)), other) == tree_of(db, other),
        commit(db, encode_utf8(s.name), upsert_ops(s, c, t)).contains_key(other)
            == db.contains_key(other),
{
}

/// The site list never holds an engine namespace, and it holds every site
/// whose namespace exists, unless its name has the engine's prefix.
pub proof fn lemma_registry(namespaces: Seq<Seq<u8>>, name: Seq<char>)
    ensures
        forall|i: int| 0 <= i < listed_sites(namespaces).len() ==> !is_reserved(#[trigger] listed_sites(namespaces)[i]),
        namespaces.contains(encode_utf8(name)) && !is_reserved(name) ==> listed_sites(namespaces).contains(name),
{
    let decoded = namespaces.map_values(|n: Seq<u8>| display_name(n));
    decoded.filter_lemma(|s: Seq<char>| !is_reserved(s));
    if namespaces.contains(encode_utf8(name)) && !is_reserved(name) {
        let i = choose|i: int| 0 <= i < namespaces.len() && namespaces[i] == encode_utf8(name);
        encode_utf8_valid_utf8(name);
        encode_utf8_decode_utf8(name);
        assert(decoded[i] == name);
    }
}

} // verus!
