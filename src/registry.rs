use vstd::prelude::*;
use vstd::utf8::{decode_utf8, valid_utf8};
use crate::text::{lossy_utf8, utf8_lossy};

verus! {

/// The name prefix of the namespaces that the engine keeps for itself.
pub open spec fn reserved_prefix() -> Seq<char> {
    seq!['_', '_', 's', 'l', 'e', 'd']
}

pub open spec fn is_reserved(name: Seq<char>) -> bool {
    name.len() >= 6 && name.subrange(0, 6) == reserved_prefix()
}

/// How a namespace name reads: decoded where it is valid UTF-8, lossily otherwise.
pub open spec fn display_name(n: Seq<u8>) -> Seq<char> {
    if valid_utf8(n) {
        decode_utf8(n)
    } else {
        lossy_utf8(n)
    }
}

/// The site names among these namespace names, in the order given.
pub open spec fn listed_sites(namespaces: Seq<Seq<u8>>) -> Seq<Seq<char>> {
    namespaces.map_values(|n: Seq<u8>| display_name(n)).filter(|s: Seq<char>| !is_reserved(s))
}

/// Whether a name belongs to the engine rather than to a site.
pub fn is_reserved_name(name: &str) -> (r: bool)
    ensures
        r == is_reserved(name@),
{
    proof {
        reveal_strlit("__sled");
    }
    let prefix = "__sled";
    let n = name.unicode_len();
    if n < 6 {
        return false;
    }
    let mut i: usize = 0;
    while i < 6
        invariant
            0 <= i <= 6,
            n == name@.len(),
            n >= 6,
            prefix@ == reserved_prefix(),
            forall|j: int| 0 <= j < i ==> name@[j] == reserved_prefix()[j],
        decreases 6 - i,
    {
        if name.get_char(i) != prefix.get_char(i) {
            assert(name@.subrange(0, 6)[i as int] != reserved_prefix()[i as int]);
            return false;
        }
        i = i + 1;
    }
    assert(name@.subrange(0, 6) =~= reserved_prefix());
    true
}

/// The sites of a store, given the names of all its namespaces: each name is
/// decoded lossily and the engine's own namespaces are left out.
pub fn site_names(namespaces: Vec<Vec<u8>>) -> (r: Vec<String>)
    ensures
        r@.map_values(|s: String| s@) == listed_sites(namespaces@.map_values(|n: Vec<u8>| n@)),
{
    let ghost all = namespaces@.map_values(|n: Vec<u8>| n@);
    let mut out: Vec<String> = Vec::new();
    let mut i: usize = 0;
    while i < namespaces.len()
        invariant
            0 <= i <= namespaces@.len(),
            all == namespaces@.map_values(|n: Vec<u8>| n@),
            out@.map_values(|s: String| s@) == listed_sites(all.subrange(0, i as int)),
        decreases namespaces@.len() - i,
    {
        let name = utf8_lossy(namespaces[i].as_slice());
        let ghost before = out@;
        proof {
            reveal(Seq::filter);
            let sub = all.subrange(0, i as int + 1);
            assert(sub.drop_last() =~= all.subrange(0, i as int));
            let m = sub.map_values(|n: Seq<u8>| display_name(n));
            assert(m.drop_last() =~= all.subrange(0, i as int).map_values(|n: Seq<u8>| display_name(n)));
            assert(m.last() == name@);
        }
        if !is_reserved_name(name.as_str()) {
            out.push(name);
            assert(out@.map_values(|s: String| s@) =~= before.map_values(|s: String| s@).push(out@.last()@));
        }
        i = i + 1;
    }
    assert(all.subrange(0, i as int) =~= all);
    out
}

} // verus!
