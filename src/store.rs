use vstd::prelude::*;
use crate::types::Site;

verus! {

/// One write of a batch on a namespace.
#[derive(Debug)]
pub enum BatchOp {
    Insert(Vec<u8>, Vec<u8>),
    Remove(Vec<u8>),
}

pub enum OpView {
    Insert(Seq<u8>, Seq<u8>),
    Remove(Seq<u8>),
}

impl View for BatchOp {
    type V = OpView;

    open spec fn view(&self) -> OpView {
        match self {
            BatchOp::Insert(k, v) => OpView::Insert(k@, v@),
            BatchOp::Remove(k) => OpView::Remove(k@),
        }
    }
}

/// What a write operation asks of the engine: apply `ops` as one atomic batch
/// to the namespace named `namespace`. `site` is the record as it stands after.
#[derive(Debug)]
pub struct Update {
    pub site: Site,
    pub namespace: Vec<u8>,
    pub ops: Vec<BatchOp>,
}

pub open spec fn ops_view(ops: Seq<BatchOp>) -> Seq<OpView> {
    ops.map_values(|o: BatchOp| o@)
}

/// A namespace: keys to values.
pub type Tree = Map<Seq<u8>, Seq<u8>>;

/// The store: namespace names to namespaces.
pub type Store = Map<Seq<u8>, Tree>;

/// The key of a site's metadata record, `site` in ASCII.
pub open spec fn site_key() -> Seq<u8> {
    seq![115u8, 105u8, 116u8, 101u8]
}

pub fn site_key_bytes() -> (r: Vec<u8>)
    ensures
        r@ == site_key(),
{
    let mut k: Vec<u8> = Vec::new();
    k.push(115);
    k.push(105);
    k.push(116);
    k.push(101);
    assert(k@ =~= site_key());
    k
}

pub open spec fn apply_op(t: Tree, op: OpView) -> Tree {
    match op {
        OpView::Insert(k, v) => t.insert(k, v),
        OpView::Remove(k) => t.remove(k),
    }
}

/// The namespace after the writes of a batch, in order.
pub open spec fn apply_ops(t: Tree, ops: Seq<OpView>) -> Tree
    decreases ops.len(),
{
    if ops.len() == 0 {
        t
    } else {
        apply_op(apply_ops(t, ops.drop_last()), ops.last())
    }
}

/// A namespace as the engine opens it: created empty where it did not exist.
pub open spec fn tree_of(db: Store, name: Seq<u8>) -> Tree {
    if db.contains_key(name) {
        db[name]
    } else {
        Map::empty()
    }
}

/// The store after a batch was applied to one namespace.
pub open spec fn commit(db: Store, name: Seq<u8>, ops: Seq<OpView>) -> Store {
    db.insert(name, apply_ops(tree_of(db, name), ops))
}

} // verus!
