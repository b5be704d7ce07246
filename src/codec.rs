use vstd::prelude::*;
use vstd::bytes::{
    lemma_auto_spec_u64_to_from_le_bytes, spec_u64_to_le_bytes, u64_from_le_bytes, u64_to_le_bytes,
};
use vstd::slice::{slice_subrange, slice_to_vec};
use vstd::utf8::{
    decode_utf8_encode_utf8, encode_utf8, encode_utf8_decode_utf8, encode_utf8_valid_utf8,
};
use crate::types::{
    AssetType, Digest, DigestAlgo, DigestType, Error, File, FileView, Site, SiteView,
};

verus! {

/// A length or a count: eight bytes, least significant first.
pub open spec fn len_record(n: int) -> Seq<u8> {
    spec_u64_to_le_bytes(n as u64)
}

/// A string: the length of its UTF-8 form, then that form.
pub open spec fn text_record(s: Seq<char>) -> Seq<u8> {
    len_record(encode_utf8(s).len() as int) + encode_utf8(s)
}

/// Strings one after another, without a count.
pub open spec fn texts_record(ss: Seq<Seq<char>>) -> Seq<u8>
    decreases ss.len(),
{
    if ss.len() == 0 {
        Seq::empty()
    } else {
        text_record(ss[0]) + texts_record(ss.drop_first())
    }
}

pub open spec fn algo_tag(a: DigestAlgo) -> u8 {
    match a {
        DigestAlgo::SHA256 => 0,
    }
}

pub open spec fn digest_type_tag(d: DigestType) -> u8 {
    match d {
        DigestType::Uncompressed => 0,
        DigestType::Compressed => 1,
    }
}

pub open spec fn asset_tag(t: AssetType) -> u8 {
    match t {
        AssetType::Css => 0,
        AssetType::Html => 1,
        AssetType::ProjectData => 2,
        AssetType::Script => 3,
    }
}

/// A file: algorithm tag, storage tag, digest value, asset tag.
pub open spec fn file_record(f: FileView) -> Seq<u8> {
    seq![algo_tag(f.digest.algo), digest_type_tag(f.digest.digest_type)]
        + (text_record(f.digest.value) + seq![asset_tag(f.asset_type)])
}

/// Files one after another, without a count.
pub open spec fn files_record(fs: Seq<FileView>) -> Seq<u8>
    decreases fs.len(),
{
    if fs.len() == 0 {
        Seq::empty()
    } else {
        file_record(fs[0]) + files_record(fs.drop_first())
    }
}

/// The stored form of a site: its name, the counted aliases, the counted files.
pub open spec fn site_record(s: SiteView) -> Seq<u8> {
    text_record(s.name) + (len_record(s.aliases.len() as int) + (texts_record(s.aliases) + (
    len_record(s.files.len() as int) + files_record(s.files))))
}

/// Whether some site is stored as exactly these bytes.
pub open spec fn is_site_record(b: Seq<u8>) -> bool {
    exists|s: SiteView| site_record(s) == b
}

/// The site stored as these bytes, where there is one.
pub open spec fn site_of_record(b: Seq<u8>) -> SiteView {
    choose|s: SiteView| site_record(s) == b
}

pub proof fn lemma_texts_record_push(ss: Seq<Seq<char>>, s: Seq<char>)
    ensures
        texts_record(ss.push(s)) == texts_record(ss) + text_record(s),
    decreases ss.len(),
{
    if ss.len() == 0 {
        assert(ss.push(s).drop_first() =~= Seq::<Seq<char>>::empty());
        assert(ss.push(s)[0] == s);
        assert(texts_record(ss.push(s).drop_first()) == Seq::<u8>::empty());
        assert(texts_record(ss.push(s)) =~= texts_record(ss) + text_record(s));
    } else {
        lemma_texts_record_push(ss.drop_first(), s);
        assert(ss.push(s).drop_first() =~= ss.drop_first().push(s));
        assert(ss.push(s)[0] == ss[0]);
        let a = text_record(ss[0]);
        let b = texts_record(ss.drop_first());
        assert(texts_record(ss.push(s)) == a + (b + text_record(s)));
        assert(a + (b + text_record(s)) =~= (a + b) + text_record(s));
    }
}

pub proof fn lemma_files_record_push(fs: Seq<FileView>, f: FileView)
    ensures
        files_record(fs.push(f)) == files_record(fs) + file_record(f),
    decreases fs.len(),
{
    if fs.len() == 0 {
        assert(fs.push(f).drop_first() =~= Seq::<FileView>::empty());
        assert(fs.push(f)[0] == f);
        assert(files_record(fs.push(f).drop_first()) == Seq::<u8>::empty());
        assert(files_record(fs.push(f)) =~= files_record(fs) + file_record(f));
    } else {
        lemma_files_record_push(fs.drop_first(), f);
        assert(fs.push(f).drop_first() =~= fs.drop_first().push(f));
        assert(fs.push(f)[0] == fs[0]);
        let a = file_record(fs[0]);
        let b = files_record(fs.drop_first());
        assert(files_record(fs.push(f)) == a + (b + file_record(f)));
        assert(a + (b + file_record(f)) =~= (a + b) + file_record(f));
    }
}

fn push_len(out: &mut Vec<u8>, n: usize)
    ensures
        final(out)@ == old(out)@ + len_record(n as int),
{
    let mut b = u64_to_le_bytes(n as u64);
    out.append(&mut b);
}

fn push_text(out: &mut Vec<u8>, s: &String)
    ensures
        final(out)@ == old(out)@ + text_record(s@),
{
    let bytes = s.as_str().as_bytes();
    push_len(out, bytes.len());
    let mut v = slice_to_vec(bytes);
    out.append(&mut v);
    assert(final(out)@ =~= old(out)@ + text_record(s@));
}

fn algo_byte(a: DigestAlgo) -> (r: u8)
    ensures
        r == algo_tag(a),
{
    match a {
        DigestAlgo::SHA256 => 0,
    }
}

fn digest_type_byte(d: DigestType) -> (r: u8)
    ensures
        r == digest_type_tag(d),
{
    match d {
        DigestType::Uncompressed => 0,
        DigestType::Compressed => 1,
    }
}

fn asset_byte(t: AssetType) -> (r: u8)
    ensures
        r == asset_tag(t),
{
    match t {
        AssetType::Css => 0,
        AssetType::Html => 1,
        AssetType::ProjectData => 2,
        AssetType::Script => 3,
    }
}

/// The bytes under which a site's metadata is stored.
pub fn encode_site(site: &Site) -> (r: Vec<u8>)
    ensures
        r@ == site_record(site@),
{
    let mut out: Vec<u8> = Vec::new();
    push_text(&mut out, &site.name);
    push_len(&mut out, site.aliases.len());
    let ghost after_count = out@;
    let mut i: usize = 0;
    while i < site.aliases.len()
        invariant
            0 <= i <= site.aliases@.len(),
            out@ == after_count + texts_record(site@.aliases.subrange(0, i as int)),
        decreases site.aliases@.len() - i,
    {
        push_text(&mut out, &site.aliases[i]);
        proof {
            lemma_texts_record_push(site@.aliases.subrange(0, i as int), site@.aliases[i as int]);
            assert(site@.aliases.subrange(0, i as int).push(site@.aliases[i as int])
                =~= site@.aliases.subrange(0, i as int + 1));
        }
        i = i + 1;
    }
    assert(site@.aliases.subrange(0, i as int) =~= site@.aliases);
    push_len(&mut out, site.files.len());
    let ghost after_fcount = out@;
    let mut j: usize = 0;
    while j < site.files.len()
        invariant
            0 <= j <= site.files@.len(),
            out@ == after_fcount + files_record(site@.files.subrange(0, j as int)),
        decreases site.files@.len() - j,
    {
        let f = &site.files[j];
        out.push(algo_byte(f.digest.algo));
        out.push(digest_type_byte(f.digest.digest_type));
        push_text(&mut out, &f.digest.value);
        out.push(asset_byte(f.asset_type));
        proof {
            lemma_files_record_push(site@.files.subrange(0, j as int), site@.files[j as int]);
            assert(site@.files.subrange(0, j as int).push(site@.files[j as int])
                =~= site@.files.subrange(0, j as int + 1));
            assert(out@ =~= after_fcount + files_record(site@.files.subrange(0, j as int + 1)));
        }
        j = j + 1;
    }
    assert(site@.files.subrange(0, j as int) =~= site@.files);
    assert(out@ =~= site_record(site@));
    out
}

pub proof fn lemma_texts_record_len(ss: Seq<Seq<char>>)
    ensures
        texts_record(ss).len() >= ss.len(),
    decreases ss.len(),
{
    lemma_auto_spec_u64_to_from_le_bytes();
    if ss.len() > 0 {
        lemma_texts_record_len(ss.drop_first());
    }
}

pub proof fn lemma_files_record_len(fs: Seq<FileView>)
    ensures
        files_record(fs).len() >= fs.len(),
    decreases fs.len(),
{
    lemma_auto_spec_u64_to_from_le_bytes();
    if fs.len() > 0 {
        lemma_files_record_len(fs.drop_first());
    }
}

/// Reads a length at `pos`; reads `n` wherever the bytes from `pos` on are
/// the record of `n` followed by `rest`.
fn parse_len(b: &[u8], pos: usize, Ghost(n): Ghost<int>, Ghost(rest): Ghost<Seq<u8>>) -> (r: Option<
    (u64, usize),
>)
    requires
        pos <= b@.len(),
    ensures
        r matches Some((v, p)) ==> p == pos + 8 && p <= b@.len() && b@.subrange(pos as int, p as int)
            == len_record(v as int),
        0 <= n <= u64::MAX && b@.subrange(pos as int, b@.len() as int) == len_record(n) + rest
            ==> (r matches Some((v, p)) && v == n && b@.subrange(p as int, b@.len() as int) == rest),
{
    proof {
        lemma_auto_spec_u64_to_from_le_bytes();
    }
    if b.len() - pos < 8 {
        proof {
            if 0 <= n <= u64::MAX && b@.subrange(pos as int, b@.len() as int) == len_record(n) + rest {
                assert(len_record(n).len() == 8);
                assert(b@.subrange(pos as int, b@.len() as int).len() >= 8);
            }
        }
        return None;
    }
    let v = u64_from_le_bytes(slice_subrange(b, pos, pos + 8));
    proof {
        let tail = b@.subrange(pos as int, b@.len() as int);
        assert(b@.subrange(pos as int, pos + 8) =~= tail.subrange(0, 8));
        assert(spec_u64_to_le_bytes(v) == b@.subrange(pos as int, pos + 8));
        if 0 <= n <= u64::MAX && tail == len_record(n) + rest {
            assert(tail.subrange(0, 8) =~= len_record(n));
            assert(b@.subrange(pos + 8, b@.len() as int) =~= tail.subrange(8, tail.len() as int));
            assert(tail.subrange(8, tail.len() as int) =~= rest);
        }
    }
    Some((v, pos + 8))
}

/// Reads a string at `pos`; reads `t` wherever the bytes from `pos` on are the
/// record of `t` followed by `rest`.
fn parse_text(b: &[u8], pos: usize, Ghost(t): Ghost<Seq<char>>, Ghost(rest): Ghost<Seq<u8>>) -> (r:
    Option<(String, usize)>)
    requires
        pos <= b@.len(),
    ensures
        r matches Some((s, p)) ==> pos <= p <= b@.len() && b@.subrange(pos as int, p as int)
            == text_record(s@),
        b@.subrange(pos as int, b@.len() as int) == text_record(t) + rest ==> (r matches Some((s, p))
            && s@ == t && b@.subrange(p as int, b@.len() as int) == rest),
{
    let ghost eb = encode_utf8(t);
    let ghost hyp = b@.subrange(pos as int, b@.len() as int) == text_record(t) + rest;
    proof {
        if hyp {
            assert(text_record(t) + rest =~= len_record(eb.len() as int) + (eb + rest));
            assert(eb.len() <= b@.len());
        }
    }
    let total = b.len();
    let (n, p) = match parse_len(b, pos, Ghost(eb.len() as int), Ghost(eb + rest)) {
        Some(x) => x,
        None => return None,
    };
    if ((total - p) as u64) < n {
        return None;
    }
    let l = n as usize;
    let v = slice_to_vec(slice_subrange(b, p, p + l));
    proof {
        if hyp {
            let tail = b@.subrange(p as int, b@.len() as int);
            assert(v@ =~= tail.subrange(0, l as int));
            assert(tail.subrange(0, l as int) =~= eb);
            encode_utf8_valid_utf8(t);
            encode_utf8_decode_utf8(t);
            assert(b@.subrange(p + l, b@.len() as int) =~= tail.subrange(l as int, tail.len() as int));
            assert(tail.subrange(l as int, tail.len() as int) =~= rest);
        }
    }
    match String::from_utf8(v) {
        Ok(s) => {
            proof {
                decode_utf8_encode_utf8(v@);
                assert(b@.subrange(pos as int, p + l) =~= b@.subrange(pos as int, p as int) + v@);
            }
            Some((s, p + l))
        },
        Err(_) => None,
    }
}

fn algo_from_tag(x: u8) -> (r: Option<DigestAlgo>)
    ensures
        r matches Some(a) ==> algo_tag(a) == x,
        forall|a: DigestAlgo| algo_tag(a) == x ==> r == Some(a),
{
    if x == 0 {
        Some(DigestAlgo::SHA256)
    } else {
        None
    }
}

fn digest_type_from_tag(x: u8) -> (r: Option<DigestType>)
    ensures
        r matches Some(d) ==> digest_type_tag(d) == x,
        forall|d: DigestType| digest_type_tag(d) == x ==> r == Some(d),
{
    if x == 0 {
        Some(DigestType::Uncompressed)
    } else if x == 1 {
        Some(DigestType::Compressed)
    } else {
        None
    }
}

fn asset_from_tag(x: u8) -> (r: Option<AssetType>)
    ensures
        r matches Some(t) ==> asset_tag(t) == x,
        forall|t: AssetType| asset_tag(t) == x ==> r == Some(t),
{
    if x == 0 {
        Some(AssetType::Css)
    } else if x == 1 {
        Some(AssetType::Html)
    } else if x == 2 {
        Some(AssetType::ProjectData)
    } else if x == 3 {
        Some(AssetType::Script)
    } else {
        None
    }
}

/// Reads a file at `pos`; reads `f` wherever the bytes from `pos` on are the
/// record of `f` followed by `rest`.
fn parse_file(b: &[u8], pos: usize, Ghost(f): Ghost<FileView>, Ghost(rest): Ghost<Seq<u8>>) -> (r:
    Option<(File, usize)>)
    requires
        pos <= b@.len(),
    ensures
        r matches Some((x, p)) ==> pos <= p <= b@.len() && b@.subrange(pos as int, p as int)
            == file_record(x@),
        b@.subrange(pos as int, b@.len() as int) == file_record(f) + rest ==> (r matches Some((x, p))
            && x@ == f && b@.subrange(p as int, b@.len() as int) == rest),
{
    let ghost hyp = b@.subrange(pos as int, b@.len() as int) == file_record(f) + rest;
    let ghost after_tags = text_record(f.digest.value) + (seq![asset_tag(f.asset_type)] + rest);
    proof {
        if hyp {
            let tail = b@.subrange(pos as int, b@.len() as int);
            assert(file_record(f) + rest =~= seq![algo_tag(f.digest.algo), digest_type_tag(f.digest.digest_type)] + after_tags);
            assert(tail.len() >= 2);
            assert(tail[0] == b@[pos as int]);
            assert(tail[1] == b@[pos + 1]);
            assert(b@.subrange(pos + 2, b@.len() as int) =~= tail.subrange(2, tail.len() as int));
            assert(tail.subrange(2, tail.len() as int) =~= after_tags);
        }
    }
    if b.len() - pos < 2 {
        return None;
    }
    let algo = match algo_from_tag(b[pos]) {
        Some(a) => a,
        None => return None,
    };
    let digest_type = match digest_type_from_tag(b[pos + 1]) {
        Some(d) => d,
        None => return None,
    };
    let (value, p) = match parse_text(
        b,
        pos + 2,
        Ghost(f.digest.value),
        Ghost(seq![asset_tag(f.asset_type)] + rest),
    ) {
        Some(x) => x,
        None => return None,
    };
    proof {
        if hyp {
            let tail = b@.subrange(p as int, b@.len() as int);
            assert(tail.len() >= 1);
            assert(tail[0] == b@[p as int]);
            assert(tail[0] == asset_tag(f.asset_type));
        }
    }
    if p >= b.len() {
        return None;
    }
    let asset_type = match asset_from_tag(b[p]) {
        Some(t) => t,
        None => return None,
    };
    let x = File { digest: Digest { algo, digest_type, value }, asset_type };
    proof {
        assert(b@.subrange(pos as int, p + 1) =~= seq![b@[pos as int], b@[pos + 1]]
            + (b@.subrange(pos + 2, p as int) + seq![b@[p as int]]));
        if hyp {
            let tail = b@.subrange(p as int, b@.len() as int);
            assert(tail[0] == b@[p as int]);
            assert(b@.subrange(p + 1, b@.len() as int) =~= tail.drop_first());
            assert(tail.drop_first() =~= rest);
        }
    }
    Some((x, p + 1))
}

/// Reads `count` strings from `start`; reads `ts` wherever the bytes from
/// `start` on are their records followed by `rest`.
fn parse_texts(b: &[u8], start: usize, count: u64, Ghost(ts): Ghost<Seq<Seq<char>>>, Ghost(rest): Ghost<Seq<u8>>) -> (r: Option<(Vec<String>, usize)>)
    requires
        start <= b@.len(),
    ensures
        r matches Some((v, p)) ==> start <= p <= b@.len() && v@.len() == count
            && b@.subrange(start as int, p as int) == texts_record(v@.map_values(|a: String| a@)),
        ts.len() == count && b@.subrange(start as int, b@.len() as int) == texts_record(ts) + rest
            ==> (r matches Some((v, p)) && v@.map_values(|a: String| a@) == ts
            && b@.subrange(p as int, b@.len() as int) == rest),
{
    let ghost hyp = ts.len() == count && b@.subrange(start as int, b@.len() as int) == texts_record(ts) + rest;
    let mut out: Vec<String> = Vec::new();
    let mut pos = start;
    let mut i: u64 = 0;
    proof {
        assert(out@.map_values(|a: String| a@) =~= Seq::<Seq<char>>::empty());
        assert(b@.subrange(start as int, start as int) =~= Seq::<u8>::empty());
        if hyp {
            assert(ts.subrange(0, 0) =~= Seq::<Seq<char>>::empty());
            assert(ts.subrange(0, count as int) =~= ts);
        }
    }
    while i < count
        invariant
            start <= pos <= b@.len(),
            i <= count,
            out@.len() == i,
            b@.subrange(start as int, pos as int) == texts_record(out@.map_values(|a: String| a@)),
            hyp == (ts.len() == count && b@.subrange(start as int, b@.len() as int) == texts_record(ts) + rest),
            hyp ==> ts.len() == count && out@.map_values(|a: String| a@) == ts.subrange(0, i as int)
                && b@.subrange(pos as int, b@.len() as int) == texts_record(ts.subrange(i as int, count as int)) + rest,
        decreases count - i,
    {
        let ghost t = if hyp { ts[i as int] } else { Seq::<char>::empty() };
        let ghost after = if hyp { texts_record(ts.subrange(i + 1, count as int)) + rest } else { Seq::<u8>::empty() };
        proof {
            if hyp {
                let sub = ts.subrange(i as int, count as int);
                assert(sub.drop_first() =~= ts.subrange(i + 1, count as int));
                assert(sub[0] == t);
                assert(texts_record(sub) + rest =~= text_record(t) + after);
            }
        }
        let (s, p) = match parse_text(b, pos, Ghost(t), Ghost(after)) {
            Some(x) => x,
            None => return None,
        };
        let ghost before = out@.map_values(|a: String| a@);
        proof {
            lemma_texts_record_push(before, s@);
            assert(b@.subrange(start as int, p as int) =~= b@.subrange(start as int, pos as int)
                + b@.subrange(pos as int, p as int));
        }
        out.push(s);
        assert(out@.map_values(|a: String| a@) =~= before.push(s@));
        proof {
            if hyp {
                assert(before.push(s@) =~= ts.subrange(0, i + 1));
            }
        }
        pos = p;
        i = i + 1;
    }
    proof {
        if hyp {
            assert(ts.subrange(0, i as int) =~= ts);
            assert(ts.subrange(i as int, count as int) =~= Seq::<Seq<char>>::empty());
            assert(Seq::<u8>::empty() + rest =~= rest);
        }
    }
    Some((out, pos))
}

/// Reads `count` files from `start`; reads `fs` wherever the bytes from
/// `start` on are their records followed by `rest`.
fn parse_files(b: &[u8], start: usize, count: u64, Ghost(fs): Ghost<Seq<FileView>>, Ghost(rest): Ghost<Seq<u8>>) -> (r: Option<(Vec<File>, usize)>)
    requires
        start <= b@.len(),
    ensures
        r matches Some((v, p)) ==> start <= p <= b@.len() && v@.len() == count
            && b@.subrange(start as int, p as int) == files_record(v@.map_values(|f: File| f@)),
        fs.len() == count && b@.subrange(start as int, b@.len() as int) == files_record(fs) + rest
            ==> (r matches Some((v, p)) && v@.map_values(|f: File| f@) == fs
            && b@.subrange(p as int, b@.len() as int) == rest),
{
    let ghost hyp = fs.len() == count && b@.subrange(start as int, b@.len() as int) == files_record(fs) + rest;
    let mut out: Vec<File> = Vec::new();
    let mut pos = start;
    let mut i: u64 = 0;
    proof {
        assert(out@.map_values(|f: File| f@) =~= Seq::<FileView>::empty());
        assert(b@.subrange(start as int, start as int) =~= Seq::<u8>::empty());
        if hyp {
            assert(fs.subrange(0, 0) =~= Seq::<FileView>::empty());
            assert(fs.subrange(0, count as int) =~= fs);
        }
    }
    while i < count
        invariant
            start <= pos <= b@.len(),
            i <= count,
            out@.len() == i,
            b@.subrange(start as int, pos as int) == files_record(out@.map_values(|f: File| f@)),
            hyp == (fs.len() == count && b@.subrange(start as int, b@.len() as int) == files_record(fs) + rest),
            hyp ==> fs.len() == count && out@.map_values(|f: File| f@) == fs.subrange(0, i as int)
                && b@.subrange(pos as int, b@.len() as int) == files_record(fs.subrange(i as int, count as int)) + rest,
        decreases count - i,
    {
        let ghost f = if hyp { fs[i as int] } else { arbitrary() };
        let ghost after = if hyp { files_record(fs.subrange(i + 1, count as int)) + rest } else { Seq::<u8>::empty() };
        proof {
            if hyp {
                let sub = fs.subrange(i as int, count as int);
                assert(sub.drop_first() =~= fs.subrange(i + 1, count as int));
                assert(sub[0] == f);
                assert(files_record(sub) + rest =~= file_record(f) + after);
            }
        }
        let (x, p) = match parse_file(b, pos, Ghost(f), Ghost(after)) {
            Some(y) => y,
            None => return None,
        };
        let ghost before = out@.map_values(|f: File| f@);
        proof {
            lemma_files_record_push(before, x@);
            assert(b@.subrange(start as int, p as int) =~= b@.subrange(start as int, pos as int)
                + b@.subrange(pos as int, p as int));
        }
        out.push(x);
        assert(out@.map_values(|f: File| f@) =~= before.push(out@.last()@));
        proof {
            if hyp {
                assert(before.push(out@.last()@) =~= fs.subrange(0, i + 1));
            }
        }
        pos = p;
        i = i + 1;
    }
    proof {
        if hyp {
            assert(fs.subrange(0, i as int) =~= fs);
            assert(fs.subrange(i as int, count as int) =~= Seq::<FileView>::empty());
            assert(Seq::<u8>::empty() + rest =~= rest);
        }
    }
    Some((out, pos))
}

fn malformed() -> (e: Error)
    ensures
        e is Serialization,
{
    Error::Serialization("malformed site record".to_string())
}

/// The site stored as these bytes; a malformed record is an error.
pub fn decode_site(b: &[u8]) -> (r: Result<Site, Error>)
    ensures
        r is Ok <==> is_site_record(b@),
        r matches Ok(s) ==> s@ == site_of_record(b@),
        r matches Err(e) ==> e is Serialization,
{
    let total = b.len();
    let ghost has = is_site_record(b@);
    let ghost target = site_of_record(b@);
    let ghost tail_files = len_record(target.files.len() as int) + files_record(target.files);
    let ghost tail_aliases = texts_record(target.aliases) + tail_files;
    proof {
        if has {
            lemma_texts_record_len(target.aliases);
            lemma_files_record_len(target.files);
            assert(b@.subrange(0, b@.len() as int) =~= b@);
            assert(files_record(target.files) + Seq::<u8>::empty() =~= files_record(target.files));
        }
    }
    let (name, p0) = match parse_text(
        b,
        0,
        Ghost(target.name),
        Ghost(len_record(target.aliases.len() as int) + tail_aliases),
    ) {
        Some(x) => x,
        None => return Err(malformed()),
    };
    let (count, p1) = match parse_len(b, p0, Ghost(target.aliases.len() as int), Ghost(tail_aliases)) {
        Some(x) => x,
        None => return Err(malformed()),
    };
    let (aliases, p2) = match parse_texts(b, p1, count, Ghost(target.aliases), Ghost(tail_files)) {
        Some(x) => x,
        None => return Err(malformed()),
    };
    let (fcount, p3) = match parse_len(b, p2, Ghost(target.files.len() as int), Ghost(files_record(target.files))) {
        Some(x) => x,
        None => return Err(malformed()),
    };
    let (files, pos) = match parse_files(b, p3, fcount, Ghost(target.files), Ghost(Seq::empty())) {
        Some(x) => x,
        None => return Err(malformed()),
    };
    if pos != total {
        return Err(malformed());
    }
    let site = Site { name, aliases, files };
    proof {
        assert(b@ =~= b@.subrange(0, p0 as int) + (b@.subrange(p0 as int, p1 as int) + (b@.subrange(
            p1 as int,
            p2 as int,
        ) + (b@.subrange(p2 as int, p3 as int) + b@.subrange(p3 as int, pos as int)))));
        assert(site_record(site@) == b@);
        if has {
            assert(site@ =~= target);
        }
    }
    Ok(site)
}

} // verus!
