//! The symbol table: a string-keyed hash table with chained buckets that
//! grows by rehashing. It backs both macro definitions and labels.

use vstd::prelude::*;
use crate::rvm_text::text_eq;

verus! {

/// Number of buckets of a new table.
pub const HTAB_SIZE: usize = 4096;

/// The most insertions a table takes: twice this number still fits in
/// `usize` on every machine.
pub const HTAB_MAX_ENTRIES: u32 = 0x7fff_ffff;

/// What a key stands for: a number and a text.
pub struct Symbol {
    pub value: i32,
    pub text: Seq<char>,
}

/// A node of a chain: a key with its symbol, and the rest of the chain.
struct RvmHtabNode {
    key: String,
    value: i32,
    value_str: String,
    next: Option<Box<RvmHtabNode>>,
}

/// The table: the number of insertions made, the number of buckets, and
/// the buckets, each the head of a chain.
pub struct RvmHtabCtx {
    num_nodes: u32,
    size: usize,
    nodes: Vec<Option<Box<RvmHtabNode>>>,
}

/// One round of the rolling hash: `h + (h << c) - c`, wrapping, with the
/// shift distance taken modulo the width of `usize`.
pub open spec fn hash_round(h: usize, c: char) -> usize {
    h.wrapping_add(h.wrapping_shl(c as u32)).wrapping_sub(c as usize)
}

/// The rolling hash of a key: the rounds applied to its characters in
/// order, starting from zero.
pub open spec fn hash_fold(key: Seq<char>) -> usize
    decreases key.len(),
{
    if key.len() == 0 {
        0
    } else {
        hash_round(hash_fold(key.drop_last()), key.last())
    }
}

/// The bucket of `key` in a table of `size` buckets.
pub open spec fn bucket_of(key: Seq<char>, size: usize) -> int {
    (hash_fold(key) % size) as int
}

/// The symbols stored under `key` in a chain, first inserted first.
spec fn chain_symbols(chain: Option<Box<RvmHtabNode>>, key: Seq<char>) -> Seq<Symbol>
    decreases chain,
{
    match chain {
        None => Seq::empty(),
        Some(node) => {
            let rest = chain_symbols(node.next, key);
            if node.key@ == key {
                seq![Symbol { value: node.value, text: node.value_str@ }] + rest
            } else {
                rest
            }
        },
    }
}

/// Every key of the chain belongs in bucket `index` of `size` buckets.
spec fn chain_in_bucket(chain: Option<Box<RvmHtabNode>>, size: usize, index: int) -> bool
    decreases chain,
{
    match chain {
        None => true,
        Some(node) => bucket_of(node.key@, size) == index && chain_in_bucket(
            node.next,
            size,
            index,
        ),
    }
}

/// The symbols stored under `key` in an array of buckets.
spec fn symbols_in(nodes: Seq<Option<Box<RvmHtabNode>>>, size: usize, key: Seq<char>) -> Seq<
    Symbol,
> {
    chain_symbols(nodes[bucket_of(key, size)], key)
}

/// Each chain holds only keys of its own bucket.
spec fn buckets_sound(nodes: Seq<Option<Box<RvmHtabNode>>>, size: usize) -> bool {
    &&& size > 0
    &&& nodes.len() == size
    &&& forall|i: int| 0 <= i < nodes.len() ==> chain_in_bucket(#[trigger] nodes[i], size, i)
}

impl RvmHtabNode {
    fn new(key: String, value: i32, value_str: String) -> (r: Self)
        ensures
            r.key@ == key@,
            r.value == value,
            r.value_str@ == value_str@,
            r.next is None,
    {
        RvmHtabNode { key, value, value_str, next: None }
    }
}

/// Appends `node` at the end of the chain in `bucket`.
fn chain_append(
    bucket: &mut Option<Box<RvmHtabNode>>,
    node: Box<RvmHtabNode>,
    Ghost(size): Ghost<usize>,
    Ghost(index): Ghost<int>,
)
    requires
        node.next is None,
        chain_in_bucket(*old(bucket), size, index),
        bucket_of(node.key@, size) == index,
    ensures
        chain_in_bucket(*final(bucket), size, index),
        forall|key: Seq<char>|
            #[trigger] chain_symbols(*final(bucket), key) == chain_symbols(*old(bucket), key)
                + chain_symbols(Some(node), key),
{
    let ghost start = *bucket;
    // what the nodes that were passed store under each key
    let ghost mut passed: spec_fn(Seq<char>) -> Seq<Symbol> = |key: Seq<char>|
        Seq::<Symbol>::empty();
    let mut cur = bucket;
    loop
        invariant
            node.next is None,
            bucket_of(node.key@, size) == index,
            chain_in_bucket(*cur, size, index),
            forall|key: Seq<char>| #[trigger]
                chain_symbols(start, key) == passed(key) + chain_symbols(*cur, key),
            forall|key: Seq<char>| #[trigger]
                chain_symbols(*final(bucket), key) == passed(key) + chain_symbols(*final(cur), key),
            chain_in_bucket(*final(cur), size, index) ==> chain_in_bucket(
                *final(bucket),
                size,
                index,
            ),
        ensures
            *cur is None,
        decreases *cur,
    {
        let ghost prev = *cur;
        let ghost fin = *final(cur);
        let ghost before = passed;
        match cur {
            None => {
                break ;
            },
            Some(b) => {
                proof {
                    let sym = Symbol { value: b.value, text: b.value_str@ };
                    let k = b.key@;
                    passed = |key: Seq<char>|
                        if key == k {
                            before(key).push(sym)
                        } else {
                            before(key)
                        };
                }
                cur = &mut b.next;
                proof {
                    assert(fin is Some);
                    assert forall|key: Seq<char>| #[trigger]
                        chain_symbols(start, key) == passed(key) + chain_symbols(*cur, key) by {
                        assert(passed(key) + chain_symbols(*cur, key) =~= before(key)
                            + chain_symbols(prev, key));
                    }
                    assert forall|key: Seq<char>| #[trigger]
                        chain_symbols(*final(bucket), key) == passed(key) + chain_symbols(
                            *final(cur),
                            key,
                        ) by {
                        assert(passed(key) + chain_symbols(*final(cur), key) =~= before(key)
                            + chain_symbols(fin, key));
                    }
                }
            },
        }
    }
    *cur = Some(node);
    proof {
        assert forall|key: Seq<char>|
            #[trigger] chain_symbols(*final(bucket), key) == chain_symbols(*old(bucket), key)
                + chain_symbols(Some(node), key) by {
            assert(chain_symbols(*old(bucket), key) =~= passed(key));
        }
    }
}

/// An array of `size` empty buckets.
fn empty_buckets(size: usize) -> (nodes: Vec<Option<Box<RvmHtabNode>>>)
    requires
        size > 0,
    ensures
        buckets_sound(nodes@, size),
        forall|key: Seq<char>| #[trigger] symbols_in(nodes@, size, key) == Seq::<Symbol>::empty(),
{
    let mut nodes: Vec<Option<Box<RvmHtabNode>>> = Vec::new();
    let mut i: usize = 0;
    while i < size
        invariant
            i <= size,
            nodes@.len() == i,
            forall|j: int| 0 <= j < i ==> (#[trigger] nodes@[j]) is None,
        decreases size - i,
    {
        nodes.push(None);
        i = i + 1;
    }
    assert forall|key: Seq<char>| #[trigger]
        symbols_in(nodes@, size, key) == Seq::<Symbol>::empty() by {
        assert(nodes@[bucket_of(key, size)] is None);
    }
    nodes
}

/// Puts `node` at the end of the chain of its bucket.
fn place(nodes: &mut Vec<Option<Box<RvmHtabNode>>>, size: usize, node: Box<RvmHtabNode>)
    requires
        node.next is None,
        buckets_sound(old(nodes)@, size),
    ensures
        buckets_sound(final(nodes)@, size),
        forall|key: Seq<char>| #[trigger]
            symbols_in(final(nodes)@, size, key) == symbols_in(old(nodes)@, size, key)
                + chain_symbols(Some(node), key),
{
    let hash = RvmHtabCtx::htab_hash(node.key.as_str(), size);
    let ghost index = hash as int;
    let ghost before = nodes@;
    chain_append(&mut nodes[hash], node, Ghost(size), Ghost(index));
    proof {
        assert forall|key: Seq<char>| #[trigger]
            symbols_in(nodes@, size, key) == symbols_in(before, size, key) + chain_symbols(
                Some(node),
                key,
            ) by {
            if bucket_of(key, size) != index {
                assert(node.key@ != key);
                assert(chain_symbols(node.next, key) =~= Seq::<Symbol>::empty());
                assert(nodes@[bucket_of(key, size)] == before[bucket_of(key, size)]);
            }
        }
    }
}

/// The number of buckets after an insertion that brings the number of
/// entries to `count`: with more than seven entries to ten buckets the
/// table is rebuilt with two buckets to an entry.
pub open spec fn grown_buckets(count: nat, buckets: nat) -> nat {
    if count * 10 > buckets * 7 {
        2 * count
    } else {
        buckets
    }
}

/// One insertion as lookups see it: a key that is present keeps its
/// symbol, a new key gets the symbol.
pub open spec fn insert_step(
    m: Map<Seq<char>, Symbol>,
    key: Seq<char>,
    symbol: Symbol,
) -> Map<Seq<char>, Symbol> {
    if m.contains_key(key) {
        m
    } else {
        m.insert(key, symbol)
    }
}

/// A key with the symbol that is inserted under it.
pub struct Insertion {
    pub key: Seq<char>,
    pub symbol: Symbol,
}

/// What lookups see after the insertions `ins`, made in order into `m`.
pub open spec fn inserted(m: Map<Seq<char>, Symbol>, ins: Seq<Insertion>) -> Map<Seq<char>, Symbol>
    decreases ins.len(),
{
    if ins.len() == 0 {
        m
    } else {
        insert_step(inserted(m, ins.drop_last()), ins.last().key, ins.last().symbol)
    }
}

/// Whether no key occurs twice among the insertions.
pub open spec fn unique_keys(ins: Seq<Insertion>) -> bool {
    forall|i: int, j: int|
        0 <= i < j < ins.len() ==> (#[trigger] ins[i]).key != (#[trigger] ins[j]).key
}

/// After insertions under keys that are all different, made into an empty
/// table, every key is found with the symbol inserted under it, and no
/// other key is found.
pub proof fn lemma_unique_insertions_found(ins: Seq<Insertion>)
    requires
        unique_keys(ins),
    ensures
        forall|i: int|
            0 <= i < ins.len() ==> inserted(Map::empty(), ins).contains_key(
                (#[trigger] ins[i]).key,
            ) && inserted(Map::empty(), ins)[ins[i].key] == ins[i].symbol,
        forall|key: Seq<char>|
            inserted(Map::empty(), ins).contains_key(key) ==> exists|i: int|
                0 <= i < ins.len() && (#[trigger] ins[i]).key == key,
    decreases ins.len(),
{
    if ins.len() > 0 {
        let head = ins.drop_last();
        let prior = inserted(Map::empty(), head);
        let after = inserted(Map::empty(), ins);
        assert(unique_keys(head)) by {
            assert forall|i: int, j: int| 0 <= i < j < head.len() implies (#[trigger] head[i]).key
                != (#[trigger] head[j]).key by {
                assert(head[i] == ins[i] && head[j] == ins[j]);
            }
        }
        lemma_unique_insertions_found(head);
        let last = ins.last();
        if prior.contains_key(last.key) {
            let i = choose|i: int| 0 <= i < head.len() && (#[trigger] head[i]).key == last.key;
            assert(ins[i].key == ins[ins.len() - 1].key);
            assert(false);
        }
        assert(after == prior.insert(last.key, last.symbol));
        assert forall|i: int| 0 <= i < ins.len() implies after.contains_key(
            (#[trigger] ins[i]).key,
        ) && after[ins[i].key] == ins[i].symbol by {
            if i < head.len() {
                assert(head[i] == ins[i]);
                assert(ins[i].key != ins[ins.len() - 1].key);
            }
        }
        assert forall|key: Seq<char>| after.contains_key(key) implies exists|i: int|
            0 <= i < ins.len() && (#[trigger] ins[i]).key == key by {
            if key == last.key {
                assert(ins[ins.len() - 1].key == key);
            } else {
                let i = choose|i: int| 0 <= i < head.len() && (#[trigger] head[i]).key == key;
                assert(ins[i].key == key);
            }
        }
    }
}

impl View for RvmHtabCtx {
    type V = Map<Seq<char>, Symbol>;

    /// What lookups see: each stored key with the symbol inserted first
    /// under it.
    open spec fn view(&self) -> Map<Seq<char>, Symbol> {
        Map::new(
            |key: Seq<char>| self.entries(key).len() > 0,
            |key: Seq<char>| self.entries(key)[0],
        )
    }
}

impl RvmHtabCtx {
    /// The table is well formed: every chain holds only keys of its bucket.
    pub closed spec fn wf(&self) -> bool {
        &&& self.size == self.nodes@.len()
        &&& buckets_sound(self.nodes@, self.size)
    }

    /// Everything stored under `key`, in the order of insertion.
    pub closed spec fn entries(&self, key: Seq<char>) -> Seq<Symbol> {
        symbols_in(self.nodes@, self.size, key)
    }

    /// The number of insertions made so far.
    pub closed spec fn count(&self) -> nat {
        self.num_nodes as nat
    }

    /// The number of buckets.
    pub closed spec fn buckets(&self) -> nat {
        self.size as nat
    }

    /// An empty table of `HTAB_SIZE` buckets.
    pub fn new() -> (r: Self)
        ensures
            r.wf(),
            forall|key: Seq<char>| #[trigger] r.entries(key) == Seq::<Symbol>::empty(),
            r@ == Map::<Seq<char>, Symbol>::empty(),
            r.count() == 0,
            r.buckets() == HTAB_SIZE,
    {
        let r = RvmHtabCtx { num_nodes: 0, size: HTAB_SIZE, nodes: empty_buckets(HTAB_SIZE) };
        assert(r@ =~= Map::<Seq<char>, Symbol>::empty());
        r
    }

    /// The number of insertions made so far.
    pub fn rvm_htab_len(&self) -> (n: u32)
        ensures
            n == self.count(),
    {
        self.num_nodes
    }

    /// The number of buckets.
    pub fn rvm_htab_size(&self) -> (n: usize)
        ensures
            n == self.buckets(),
    {
        self.size
    }

    /// The bucket of `key` among `size` buckets.
    fn htab_hash(key: &str, size: usize) -> (hash: usize)
        requires
            size > 0,
        ensures
            hash == bucket_of(key@, size),
            hash < size,
    {
        let mut hash: usize = 0;
        for c in it: key.chars()
            invariant
                it.seq() == key@,
                hash == hash_fold(it.seq().take(it.index())),
        {
            assert(it.seq().take(it.index() + 1).drop_last() =~= it.seq().take(it.index()));
            hash = hash.wrapping_add(hash.wrapping_shl(c as u32));
            hash = hash.wrapping_sub(c as usize);
        }
        assert(key@.take(key@.len() as int) =~= key@);
        hash % size
    }

    /// Moves every entry into a new array of `size` buckets, each entry
    /// into the bucket of its key. No entry is lost and none is added: under
    /// every key stands what stood there, in the same order, so every lookup
    /// finds what it found.
    pub fn htab_rehash(&mut self, size: usize)
        requires
            old(self).wf(),
            size > 0,
        ensures
            final(self).wf(),
            forall|key: Seq<char>| #[trigger] final(self).entries(key) == old(self).entries(key),
            final(self)@ == old(self)@,
            final(self).count() == old(self).count(),
            final(self).buckets() == size,
    {
        let old_size = self.size;
        let mut old_nodes = empty_buckets(size);
        core::mem::swap(&mut self.nodes, &mut old_nodes);
        self.size = size;
        let ghost start = old_nodes@;

        // Traverse the old buckets, moving every entry into the new ones.
        let mut i: usize = 0;
        while i < old_size
            invariant
                i <= old_size,
                size > 0,
                self.size == size,
                old_nodes@.len() == old_size,
                start.len() == old_size,
                self.num_nodes == old(self).num_nodes,
                buckets_sound(old_nodes@, old_size),
                buckets_sound(self.nodes@, size),
                forall|j: int| i <= j < old_size ==> old_nodes@[j] == start[j],
                forall|key: Seq<char>| #[trigger]
                    symbols_in(start, old_size, key) == symbols_in(self.nodes@, size, key) + (
                    if bucket_of(key, old_size) >= i {
                        symbols_in(start, old_size, key)
                    } else {
                        Seq::<Symbol>::empty()
                    }),
            decreases old_size - i,
        {
            let ghost index = i as int;
            let mut chain = old_nodes[i].take();
            loop
                invariant
                    index == i < old_size,
                    size > 0,
                    self.size == size,
                    old_nodes@.len() == old_size,
                    start.len() == old_size,
                    self.num_nodes == old(self).num_nodes,
                    buckets_sound(old_nodes@, old_size),
                    buckets_sound(self.nodes@, size),
                    forall|j: int| i < j < old_size ==> old_nodes@[j] == start[j],
                    chain_in_bucket(chain, old_size, index),
                    forall|key: Seq<char>| #[trigger]
                        symbols_in(start, old_size, key) == symbols_in(self.nodes@, size, key) + (
                        if bucket_of(key, old_size) == index {
                            chain_symbols(chain, key)
                        } else if bucket_of(key, old_size) > index {
                            symbols_in(start, old_size, key)
                        } else {
                            Seq::<Symbol>::empty()
                        }),
                ensures
                    chain is None,
                decreases chain,
            {
                match chain {
                    None => {
                        break ;
                    },
                    Some(mut node) => {
                        let ghost whole = chain;
                        let ghost before = self.nodes@;
                        chain = node.next.take();
                        place(&mut self.nodes, size, node);
                        proof {
                            assert forall|key: Seq<char>| #[trigger]
                                symbols_in(start, old_size, key) == symbols_in(
                                    self.nodes@,
                                    size,
                                    key,
                                ) + (if bucket_of(key, old_size) == index {
                                    chain_symbols(chain, key)
                                } else if bucket_of(key, old_size) > index {
                                    symbols_in(start, old_size, key)
                                } else {
                                    Seq::<Symbol>::empty()
                                }) by {
                                assert(chain_symbols(node.next, key) =~= Seq::<Symbol>::empty());
                                if bucket_of(key, old_size) == index {
                                    assert(symbols_in(self.nodes@, size, key) + chain_symbols(
                                        chain,
                                        key,
                                    ) =~= symbols_in(before, size, key) + chain_symbols(
                                        whole,
                                        key,
                                    ));
                                } else {
                                    assert(node.key@ != key);
                                    assert(symbols_in(self.nodes@, size, key) =~= symbols_in(
                                        before,
                                        size,
                                        key,
                                    ));
                                }
                            }
                        }
                    },
                }
            }
            i = i + 1;
        }
        proof {
            assert forall|key: Seq<char>| #[trigger]
                self.entries(key) == old(self).entries(key) by {
                assert(symbols_in(self.nodes@, size, key) + Seq::<Symbol>::empty() =~= symbols_in(
                    self.nodes@,
                    size,
                    key,
                ));
            }
            assert(self@ =~= old(self)@);
        }
    }

    /// Inserts `value` and `value_str` under `key`, behind whatever the key
    /// already stands for. The table does not reject a key that is already
    /// present: a lookup keeps finding what was inserted first.
    pub fn rvm_htab_add(&mut self, key: &str, value: i32, value_str: &str)
        requires
            old(self).wf(),
            old(self).count() < HTAB_MAX_ENTRIES,
        ensures
            final(self).wf(),
            forall|k: Seq<char>| #[trigger]
                final(self).entries(k) == if k == key@ {
                    old(self).entries(k).push(Symbol { value, text: value_str@ })
                } else {
                    old(self).entries(k)
                },
            final(self)@ == insert_step(old(self)@, key@, Symbol { value, text: value_str@ }),
            final(self).count() == old(self).count() + 1,
            final(self).buckets() == grown_buckets(old(self).count() + 1, old(self).buckets()),
    {
        self.num_nodes += 1;
        if self.num_nodes as u128 * 10 > self.size as u128 * 7 {
            self.htab_rehash(self.num_nodes as usize * 2);
        }
        let node: Box<RvmHtabNode> = Box::new(
            RvmHtabNode::new(key.to_owned(), value, value_str.to_owned()),
        );
        let ghost mid = *self;
        place(&mut self.nodes, self.size, node);
        proof {
            let sym = Symbol { value, text: value_str@ };
            assert forall|k: Seq<char>| #[trigger]
                self.entries(k) == if k == key@ {
                    old(self).entries(k).push(sym)
                } else {
                    old(self).entries(k)
                } by {
                assert(chain_symbols(node.next, k) =~= Seq::<Symbol>::empty());
                assert(mid.entries(k) == old(self).entries(k));
                if k == key@ {
                    assert(symbols_in(self.nodes@, self.size, k) =~= old(self).entries(k).push(
                        sym,
                    ));
                } else {
                    assert(symbols_in(self.nodes@, self.size, k) =~= old(self).entries(k));
                }
            }
            if old(self)@.contains_key(key@) {
                assert(self@ =~= old(self)@);
            } else {
                assert(self@ =~= old(self)@.insert(key@, sym));
            }
        }
    }

    /// The number stored under `key`: that of the symbol inserted first.
    pub fn rvm_htab_find(&self, key: &str) -> (r: Option<i32>)
        requires
            self.wf(),
        ensures
            r == match self@.get(key@) {
                Some(symbol) => Some(symbol.value),
                None => None,
            },
    {
        let hash = RvmHtabCtx::htab_hash(key, self.size);
        let mut current_node = &self.nodes[hash];
        loop
            invariant
                chain_symbols(*current_node, key@) == self.entries(key@),
            decreases *current_node,
        {
            match current_node {
                None => {
                    return None;
                },
                Some(node) => {
                    if text_eq(node.key.as_str(), key) {
                        return Some(node.value);
                    }
                    current_node = &node.next;
                },
            }
        }
    }

    /// The text stored under `key`: that of the symbol inserted first.
    pub fn rvm_htab_find_ref(&self, key: &str) -> (r: Option<String>)
        requires
            self.wf(),
        ensures
            match self@.get(key@) {
                Some(symbol) => r is Some && r->Some_0@ == symbol.text,
                None => r is None,
            },
    {
        let hash = RvmHtabCtx::htab_hash(key, self.size);
        let mut current_node = &self.nodes[hash];
        loop
            invariant
                chain_symbols(*current_node, key@) == self.entries(key@),
            decreases *current_node,
        {
            match current_node {
                None => {
                    return None;
                },
                Some(node) => {
                    if text_eq(node.key.as_str(), key) {
                        return Some(node.value_str.clone());
                    }
                    current_node = &node.next;
                },
            }
        }
    }
}

} // verus!
