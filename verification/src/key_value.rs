//! The binary key/value schema decoder.
//!
//! The native client's statistics schema files hold a recursive,
//! self-describing binary tree: a tag byte, a NUL-terminated node name,
//! then — by tag — a value of fixed width, another NUL-terminated string,
//! or a nested child list closed by an End tag; the whole top level is
//! closed by its own End tag. The decoder turns such bytes into a
//! [`KeyValue`] tree with typed leaf values. Reading the file from disk is
//! the caller's business; the grammar, the decoding and the accessors are
//! here, verified. Float leaves are carried as their raw IEEE 754 bit
//! patterns, so the tree and its accessors stay on plain integers.

use vstd::prelude::*;
use vstd::string::StringExecFns;
use vstd::string::StrSliceExecFns;
use vstd::utf8::{decode_utf8, valid_utf8};
use crate::frame::le_val;
use crate::textenc::i32_of_bits;

verus! {

/// Errors of the decoder.
#[derive(Debug, Clone, Copy, PartialEq, Eq, Structural)]
pub enum KeyValueError {
    /// The stream ended where the grammar still needed bytes.
    Io,
    /// A tag byte outside the known range; carries the offending byte.
    Format(u8),
    /// A recognized but unsupported tag was met; decoding fails rather
    /// than mis-reading bytes.
    UnsupportedType(KeyValueType),
}

/// The tag byte values of the format.
#[derive(Debug, Clone, Copy, PartialEq, Eq, Structural)]
pub enum KeyValueType {
    /// A node that carries no value of its own, only children.
    Container,
    /// A NUL-terminated string value.
    Text,
    Int32,
    Float32,
    Pointer,
    /// A wide-string value: recognized, never supported.
    WideText,
    Color,
    UInt64,
    /// Closes a child list, or the whole stream at top level.
    End,
}

impl KeyValueType {
    /// The tag byte of this type.
    pub open spec fn spec_tag(self) -> u8 {
        match self {
            KeyValueType::Container => 0,
            KeyValueType::Text => 1,
            KeyValueType::Int32 => 2,
            KeyValueType::Float32 => 3,
            KeyValueType::Pointer => 4,
            KeyValueType::WideText => 5,
            KeyValueType::Color => 6,
            KeyValueType::UInt64 => 7,
            KeyValueType::End => 8,
        }
    }

    /// The type a tag byte stands for, if any.
    pub open spec fn spec_from_tag(tag: u8) -> Option<KeyValueType> {
        if tag == 0 {
            Some(KeyValueType::Container)
        } else if tag == 1 {
            Some(KeyValueType::Text)
        } else if tag == 2 {
            Some(KeyValueType::Int32)
        } else if tag == 3 {
            Some(KeyValueType::Float32)
        } else if tag == 4 {
            Some(KeyValueType::Pointer)
        } else if tag == 5 {
            Some(KeyValueType::WideText)
        } else if tag == 6 {
            Some(KeyValueType::Color)
        } else if tag == 7 {
            Some(KeyValueType::UInt64)
        } else if tag == 8 {
            Some(KeyValueType::End)
        } else {
            None
        }
    }

    /// Recovers a type from its tag byte.
    pub fn from_tag(tag: u8) -> (r: Option<KeyValueType>)
        ensures
            r == KeyValueType::spec_from_tag(tag),
    {
        if tag == 0 {
            Some(KeyValueType::Container)
        } else if tag == 1 {
            Some(KeyValueType::Text)
        } else if tag == 2 {
            Some(KeyValueType::Int32)
        } else if tag == 3 {
            Some(KeyValueType::Float32)
        } else if tag == 4 {
            Some(KeyValueType::Pointer)
        } else if tag == 5 {
            Some(KeyValueType::WideText)
        } else if tag == 6 {
            Some(KeyValueType::Color)
        } else if tag == 7 {
            Some(KeyValueType::UInt64)
        } else if tag == 8 {
            Some(KeyValueType::End)
        } else {
            None
        }
    }
}

/// The value held by a node. A float leaf holds its raw IEEE 754 single
/// bit pattern.
#[derive(Debug, Clone)]
pub enum KeyValueData {
    NoData,
    Text(String),
    Int32(i32),
    Float32(u32),
    UInt64(u64),
    Color(u32),
}

/// A node of the decoded tree: a name, a value, children with pairwise
/// distinct names (a later same-named sibling overwrites an earlier one),
/// and a validity flag — false only on the missing-lookup sentinel, which
/// no tree ever contains.
#[derive(Debug)]
pub struct KeyValue {
    pub name: String,
    pub data: KeyValueData,
    pub children: Vec<KeyValue>,
    pub valid: bool,
}

// ---------------------------------------------------------------------------
// Specification helpers on raw bytes.
// ---------------------------------------------------------------------------
/// Position of the first NUL byte at or after `i`, if any.
pub open spec fn find_nul(b: Seq<u8>, i: int) -> Option<int>
    decreases b.len() - i when 0 <= i <= b.len()
{
    if i >= b.len() {
        None
    } else if b[i] == 0 {
        Some(i)
    } else {
        find_nul(b, i + 1)
    }
}

/// The characters a raw byte run stands for: its UTF-8 decoding, or the
/// empty string where the bytes are not valid UTF-8.
pub open spec fn str_of(raw: Seq<u8>) -> Seq<char> {
    if valid_utf8(raw) {
        decode_utf8(raw)
    } else {
        Seq::empty()
    }
}

// ---------------------------------------------------------------------------
// What the decoder builds: relations between byte spans and nodes.
//
// `kv_node_parses(b, i, node, j)` says the bytes `i..j` spell exactly one
// node whose decoded form is `node`; `nodes_span` chains zero or more
// nodes; `kvlist_parses` is a node run closed by an End tag. Sibling nodes
// with one name collapse, last write winning in place, which `insert_child`
// and `fold_insert` describe.
// ---------------------------------------------------------------------------
/// Inserts one decoded node among its siblings: a same-named earlier
/// sibling is overwritten in place, otherwise the node goes to the end.
pub open spec fn insert_child(acc: Seq<KeyValue>, node: KeyValue) -> Seq<KeyValue> {
    if exists|k: int| 0 <= k < acc.len() && #[trigger] acc[k].name@ == node.name@ {
        acc.update(choose|k: int| 0 <= k < acc.len() && #[trigger] acc[k].name@ == node.name@, node)
    } else {
        acc.push(node)
    }
}

/// Folds a run of decoded sibling nodes into a child list, in order.
pub open spec fn fold_insert(acc: Seq<KeyValue>, raw: Seq<KeyValue>) -> Seq<KeyValue>
    decreases raw.len(),
{
    if raw.len() == 0 {
        acc
    } else {
        fold_insert(insert_child(acc, raw.first()), raw.drop_first())
    }
}

pub proof fn lemma_fold_insert_push(acc: Seq<KeyValue>, raw: Seq<KeyValue>, node: KeyValue)
    ensures
        fold_insert(acc, raw.push(node)) == insert_child(fold_insert(acc, raw), node),
    decreases raw.len(),
{
    let p = raw.push(node);
    assert(p.len() == raw.len() + 1);
    assert(fold_insert(acc, p) == fold_insert(insert_child(acc, p.first()), p.drop_first()));
    if raw.len() == 0 {
        assert(p.first() == node);
        assert(p.drop_first() =~= Seq::<KeyValue>::empty());
        assert(fold_insert(insert_child(acc, node), p.drop_first()) == insert_child(acc, node));
        assert(fold_insert(acc, raw) == acc);
    } else {
        assert(p.first() == raw.first());
        assert(p.drop_first() =~= raw.drop_first().push(node));
        lemma_fold_insert_push(insert_child(acc, raw.first()), raw.drop_first(), node);
        assert(fold_insert(acc, raw) == fold_insert(insert_child(acc, raw.first()), raw.drop_first()));
    }
}

/// A trigger marker for the ghost child runs the container case
/// quantifies over.
pub open spec fn raw_mark(raw: Seq<KeyValue>) -> bool {
    true
}

// ---------------------------------------------------------------------------
// Diagnosis: where decoding of a span ends, or which error it meets.
// The positions fed to recursive calls are clamped so the definition
// plainly terminates; on every path the decoder actually takes, the
// clamps change nothing.
// ---------------------------------------------------------------------------
/// Outcome of scanning a span: the position after it, or the error met
/// first.
pub enum KvDiag {
    DOk(int),
    DErr(KeyValueError),
}

/// Clamps `v` into `lo..=hi`.
pub open spec fn clamp_pos(v: int, lo: int, hi: int) -> int {
    if v < lo {
        lo
    } else if v > hi {
        hi
    } else {
        v
    }
}

/// Scans one node (`true`) or a node run with its closing End tag
/// (`false`) starting at `i`. The tag is checked first, then the name is
/// read, then the value by tag — in that order, so a truncated name is an
/// `Io` error even under the unsupported wide-string tag.
pub open spec fn kv_diag(b: Seq<u8>, i: int, node_goal: bool) -> KvDiag
    decreases b.len() - i, (if node_goal { 0int } else { 1int }) when 0 <= i <= b.len()
{
    if i >= b.len() {
        KvDiag::DErr(KeyValueError::Io)
    } else if node_goal {
        if b[i] > 8 {
            KvDiag::DErr(KeyValueError::Format(b[i]))
        } else {
            match find_nul(b, i + 1) {
                None => KvDiag::DErr(KeyValueError::Io),
                Some(e) => {
                    let v = clamp_pos(e + 1, i + 1, b.len() as int);
                    if b[i] == 0 {
                        kv_diag(b, v, false)
                    } else if b[i] == 1 {
                        match find_nul(b, v) {
                            None => KvDiag::DErr(KeyValueError::Io),
                            Some(e2) => KvDiag::DOk(e2 + 1),
                        }
                    } else if b[i] == 5 {
                        KvDiag::DErr(KeyValueError::UnsupportedType(KeyValueType::WideText))
                    } else if b[i] == 7 {
                        if v + 8 <= b.len() {
                            KvDiag::DOk(v + 8)
                        } else {
                            KvDiag::DErr(KeyValueError::Io)
                        }
                    } else if b[i] == 8 {
                        KvDiag::DOk(i + 1)
                    } else {
                        if v + 4 <= b.len() {
                            KvDiag::DOk(v + 4)
                        } else {
                            KvDiag::DErr(KeyValueError::Io)
                        }
                    }
                },
            }
        }
    } else {
        if b[i] == 8 {
            KvDiag::DOk(i + 1)
        } else {
            match kv_diag(b, i, true) {
                KvDiag::DOk(m) => kv_diag(b, clamp_pos(m, i + 1, b.len() as int), false),
                KvDiag::DErr(e) => KvDiag::DErr(e),
            }
        }
    }
}

/// Scanning a node run with its closing End tag starting at `i`.
pub open spec fn list_diag(b: Seq<u8>, i: int) -> KvDiag {
    kv_diag(b, i, false)
}

/// Where the node starting at `i` ends, according to the scanner; the
/// clamp never changes the value on a span the scanner accepts.
pub open spec fn node_end(b: Seq<u8>, i: int) -> Option<int> {
    match kv_diag(b, i, true) {
        KvDiag::DOk(m) => Some(clamp_pos(m, i + 1, b.len() as int)),
        KvDiag::DErr(_) => None,
    }
}

/// The node starting at `i` decodes to exactly `node`: the right tag and
/// name, and — by tag — the right leaf value, or children folded from the
/// node run inside it.
pub open spec fn node_at(b: Seq<u8>, i: int, node: KeyValue) -> bool
    decreases b.len() - i, 0int when 0 <= i <= b.len()
{
    0 <= i < b.len() && node.valid == true && b[i] != 8 && b[i] <= 7 && b[i] != 5 && match find_nul(
        b,
        i + 1,
    ) {
        None => false,
        Some(e) => node.name@ == str_of(b.subrange(i + 1, e)) && {
            let v = clamp_pos(e + 1, i + 1, b.len() as int);
            if b[i] == 0 {
                node.data is NoData && exists|raw: Seq<KeyValue>|
                    #![trigger raw_mark(raw)]
                    raw_mark(raw) && list_at(b, v, raw) && node.children@ == fold_insert(
                        Seq::empty(),
                        raw,
                    )
            } else {
                node.children@ =~= Seq::<KeyValue>::empty() && if b[i] == 1 {
                    match find_nul(b, v) {
                        None => false,
                        Some(e2) => match node.data {
                            KeyValueData::Text(s) => s@ == str_of(b.subrange(v, e2)),
                            _ => false,
                        },
                    }
                } else if b[i] == 2 {
                    v + 4 <= b.len() && node.data == KeyValueData::Int32(
                        i32_of_bits(le_val(b, v, 4) as u32),
                    )
                } else if b[i] == 3 {
                    v + 4 <= b.len() && node.data == KeyValueData::Float32(le_val(b, v, 4) as u32)
                } else if b[i] == 7 {
                    v + 8 <= b.len() && node.data == KeyValueData::UInt64(le_val(b, v, 8) as u64)
                } else {
                    v + 4 <= b.len() && node.data == KeyValueData::Color(le_val(b, v, 4) as u32)
                }
            }
        },
    }
}

/// The bytes from `i` to `j` decode to exactly the node run `raw`, one
/// node after the next, the scanner agreeing on where each node ends.
pub open spec fn run_to(b: Seq<u8>, i: int, raw: Seq<KeyValue>, j: int) -> bool
    decreases b.len() - i, 1int when 0 <= i <= b.len()
{
    if raw.len() == 0 {
        i == j
    } else {
        node_at(b, i, raw.first()) && match node_end(b, i) {
            Some(m) => run_to(b, m, raw.drop_first(), j),
            None => false,
        }
    }
}

/// The node run starting at `i` and closed by its End tag decodes to
/// exactly `raw`.
pub open spec fn list_at(b: Seq<u8>, i: int, raw: Seq<KeyValue>) -> bool
    decreases b.len() - i, 2int when 0 <= i <= b.len()
{
    match kv_diag(b, i, false) {
        KvDiag::DOk(j) => run_to(b, i, raw, j - 1),
        KvDiag::DErr(_) => false,
    }
}

/// A decoded node run extends on the right by one more decoded node.
pub proof fn lemma_run_to_snoc(
    b: Seq<u8>,
    i: int,
    raw: Seq<KeyValue>,
    m: int,
    node: KeyValue,
    m2: int,
)
    requires
        0 <= i <= b.len(),
        0 <= m <= b.len(),
        run_to(b, i, raw, m),
        node_at(b, m, node),
        node_end(b, m) == Some(m2),
    ensures
        run_to(b, i, raw.push(node), m2),
    decreases raw.len(),
{
    let p = raw.push(node);
    if raw.len() == 0 {
        assert(i == m);
        assert(p.first() == node);
        assert(p.drop_first() =~= Seq::<KeyValue>::empty());
        assert(run_to(b, m2, p.drop_first(), m2));
    } else {
        assert(p.first() == raw.first());
        assert(p.drop_first() =~= raw.drop_first().push(node));
        let mid = node_end(b, i).unwrap();
        assert(run_to(b, mid, raw.drop_first(), m));
        assert(i < mid <= b.len());
        lemma_run_to_snoc(b, mid, raw.drop_first(), m, node, m2);
    }
}

/// `find_nul` finds a NUL at or after where it starts, inside the bytes.
pub proof fn lemma_find_nul_bounds(b: Seq<u8>, i: int)
    requires
        0 <= i <= b.len(),
        find_nul(b, i) is Some,
    ensures
        i <= find_nul(b, i).unwrap() < b.len(),
        b[find_nul(b, i).unwrap()] == 0,
    decreases b.len() - i,
{
    if i < b.len() && b[i] != 0 {
        lemma_find_nul_bounds(b, i + 1);
    }
}

// ---------------------------------------------------------------------------
// The executable decoder.
// ---------------------------------------------------------------------------
/// Pairwise distinct child names.
pub open spec fn names_unique(s: Seq<KeyValue>) -> bool {
    forall|i: int, j: int| 0 <= i < j < s.len() ==> s[i].name@ != s[j].name@
}

/// Reads a NUL-terminated string starting at `i`: the bytes before the
/// first NUL, decoded as UTF-8, or the empty string where they are not
/// valid UTF-8. Fails with `Io` exactly when no NUL follows.
fn read_nul_string(b: &Vec<u8>, i: usize) -> (r: Result<(String, usize), KeyValueError>)
    requires
        i <= b@.len(),
    ensures
        r is Ok ==> {
            &&& find_nul(b@, i as int) == Some(r.unwrap().1 - 1)
            &&& i < r.unwrap().1 <= b@.len()
            &&& r.unwrap().0@ == str_of(b@.subrange(i as int, r.unwrap().1 - 1))
        },
        r is Err ==> find_nul(b@, i as int) is None && r.unwrap_err() == KeyValueError::Io,
{
    let len: usize = b.len();
    let mut k: usize = i;
    while k < len
        invariant
            i <= k <= len,
            len == b@.len(),
            find_nul(b@, i as int) == find_nul(b@, k as int),
        decreases len - k,
    {
        if b[k] == 0 {
            let mut raw: Vec<u8> = Vec::new();
            let mut t: usize = i;
            while t < k
                invariant
                    i <= t <= k <= len,
                    len == b@.len(),
                    raw@ == b@.subrange(i as int, t as int),
                decreases k - t,
            {
                raw.push(b[t]);
                assert(raw@ =~= b@.subrange(i as int, t + 1));
                t = t + 1;
            }
            let s = match crate::textenc::string_from_utf8(raw) {
                Some(s) => {
                    assert(s@ == str_of(b@.subrange(i as int, k as int)));
                    s
                },
                None => {
                    let s = String::new();
                    assert(s@ == str_of(b@.subrange(i as int, k as int)));
                    s
                },
            };
            return Ok((s, k + 1));
        }
        k = k + 1;
    }
    Err(KeyValueError::Io)
}

/// Reads `k` little-endian bytes at `i` as a number.
fn read_le(b: &Vec<u8>, i: usize, k: usize) -> (r: u64)
    requires
        i + k <= b@.len(),
        k <= 8,
    ensures
        r == crate::frame::le_val(b@, i as int, k as nat),
{
    let blen: usize = b.len();
    let mut acc: u64 = 0;
    let mut j: usize = k;
    while j > 0
        invariant
            0 <= j <= k <= 8,
            blen == b@.len(),
            i + k <= b@.len(),
            acc == crate::frame::le_val(b@, i + j, (k - j) as nat),
            acc < crate::frame::pow256((k - j) as nat),
        decreases j,
    {
        j = j - 1;
        let byte: u8 = b[i + j];
        proof {
            crate::frame::lemma_pow256_increases((k - j) as nat, 8);
            assert(crate::frame::pow256(8) == 0x1_0000_0000_0000_0000) by {
                reveal_with_fuel(crate::frame::pow256, 9);
            };
            assert(crate::frame::pow256((k - j) as nat) == 256 * crate::frame::pow256(
                (k - j - 1) as nat,
            ));
            assert(acc * 256 + 256 <= crate::frame::pow256((k - j - 1) as nat) * 256)
                by (nonlinear_arith)
                requires
                    acc < crate::frame::pow256((k - j - 1) as nat),
            ;
        }
        acc = acc * 256 + (byte as u64);
    }
    acc
}

/// What `k` little-endian bytes can spell is below 256 to the `k`.
proof fn lemma_le_val_bound(b: Seq<u8>, i: int, k: nat)
    ensures
        le_val(b, i, k) < crate::frame::pow256(k),
    decreases k,
{
    if k > 0 {
        lemma_le_val_bound(b, i + 1, (k - 1) as nat);
        assert(crate::frame::pow256(k) == 256 * crate::frame::pow256((k - 1) as nat));
    }
}

/// Replaces the same-named child, or appends the node: last write wins,
/// in place.
fn insert_child_exec(children: &mut Vec<KeyValue>, node: KeyValue)
    requires
        names_unique(old(children)@),
    ensures
        final(children)@ == insert_child(old(children)@, node),
        names_unique(final(children)@),
{
    let n: usize = children.len();
    let mut k: usize = 0;
    while k < n
        invariant
            0 <= k <= n,
            n == children@.len(),
            names_unique(children@),
            children@ == old(children)@,
            forall|t: int| 0 <= t < k ==> #[trigger] children@[t].name@ != node.name@,
        decreases n - k,
    {
        if children[k].name == node.name {
            proof {
                let ki: int = k as int;
                assert(children@[ki].name@ == node.name@);
                let w = choose|w: int|
                    0 <= w < old(children)@.len() && #[trigger] old(children)@[w].name@
                        == node.name@;
                assert(w == ki) by {
                    if w < ki {
                        assert(old(children)@[w].name@ != old(children)@[ki].name@);
                    } else if w > ki {
                        assert(old(children)@[ki].name@ != old(children)@[w].name@);
                    }
                };
            }
            children.remove(k);
            children.insert(k, node);
            proof {
                assert(final(children)@ =~= insert_child(old(children)@, node));
                assert forall|i: int, j: int| 0 <= i < j < final(children)@.len() implies
                    #[trigger] final(children)@[i].name@
                    != #[trigger] final(children)@[j].name@ by {
                    assert(final(children)@[i] == if i == k {
                        node
                    } else {
                        old(children)@[i]
                    });
                    assert(final(children)@[j] == if j == k {
                        node
                    } else {
                        old(children)@[j]
                    });
                    assert(old(children)@[k as int].name@ == node.name@);
                }
            }
            return ;
        }
        k = k + 1;
    }
    children.push(node);
    proof {
        assert(!(exists|w: int|
            0 <= w < old(children)@.len() && #[trigger] old(children)@[w].name@ == node.name@));
        assert(final(children)@ =~= insert_child(old(children)@, node));
        assert forall|i: int, j: int| 0 <= i < j < final(children)@.len() implies
            #[trigger] final(children)@[i].name@ != #[trigger] final(children)@[j].name@ by {
            if j < old(children)@.len() {
            } else {
                assert(final(children)@[j] == node);
                assert(old(children)@[i].name@ != node.name@);
            }
        }
    }
}

impl KeyValue {
    /// A fresh root node: named `<root>`, no value, no children, valid.
    pub fn root() -> (r: KeyValue)
        ensures
            r.name@ == "<root>"@,
            r.data is NoData,
            r.children@ == Seq::<KeyValue>::empty(),
            r.valid == true,
    {
        KeyValue {
            name: String::from_str("<root>"),
            data: KeyValueData::NoData,
            children: Vec::new(),
            valid: true,
        }
    }

    /// Decodes one node run and its closing End tag from `input` starting
    /// at `pos`, inserting each decoded node among this node's children
    /// (a later same-named sibling overwrites an earlier one). On success
    /// returns the position after the End tag; on failure the error the
    /// scan meets first, leaving a partial tree the caller discards.
    pub fn read_as_binary(&mut self, input: &Vec<u8>, pos: usize) -> (r: Result<
        usize,
        KeyValueError,
    >)
        requires
            pos <= input@.len(),
            names_unique(old(self).children@),
        ensures
            r is Ok ==> {
                &&& kv_diag(input@, pos as int, false) == KvDiag::DOk(r.unwrap() as int)
                &&& pos < r.unwrap() <= input@.len()
                &&& exists|raw: Seq<KeyValue>|
                    #![trigger raw_mark(raw)]
                    raw_mark(raw) && list_at(input@, pos as int, raw) && final(self).children@
                        == fold_insert(old(self).children@, raw)
            },
            r is Err ==> kv_diag(input@, pos as int, false) == KvDiag::DErr(r.unwrap_err()),
            final(self).name == old(self).name,
            final(self).data == old(self).data,
            final(self).valid == old(self).valid,
            names_unique(final(self).children@),
        decreases input@.len() - pos,
    {
        let len: usize = input.len();
        let mut cur: usize = pos;
        let ghost mut raw: Seq<KeyValue> = Seq::empty();
        loop
            invariant
                pos <= cur <= len,
                len == input@.len(),
                kv_diag(input@, pos as int, false) == kv_diag(input@, cur as int, false),
                run_to(input@, pos as int, raw, cur as int),
                self.children@ == fold_insert(old(self).children@, raw),
                self.name == old(self).name,
                self.data == old(self).data,
                self.valid == old(self).valid,
                names_unique(self.children@),
            decreases len - cur,
        {
            if cur >= len {
                return Err(KeyValueError::Io);
            }
            let tag: u8 = input[cur];
            if tag == 8 {
                proof {
                    assert(kv_diag(input@, cur as int, false) == KvDiag::DOk(cur + 1));
                    assert(list_at(input@, pos as int, raw));
                    assert(raw_mark(raw));
                }
                return Ok(cur + 1);
            }
            if tag > 8 {
                proof {
                    assert(kv_diag(input@, cur as int, true) == KvDiag::DErr(
                        KeyValueError::Format(tag),
                    ));
                }
                return Err(KeyValueError::Format(tag));
            }
            let (name_s, v) = match read_nul_string(input, cur + 1) {
                Ok(p) => p,
                Err(e) => {
                    proof {
                        assert(kv_diag(input@, cur as int, true) == KvDiag::DErr(
                            KeyValueError::Io,
                        ));
                    }
                    return Err(e);
                },
            };
            proof {
                lemma_find_nul_bounds(input@, cur + 1);
                assert(clamp_pos(v as int, cur + 1, len as int) == v as int);
            }
            let ghost nul: int = v - 1;
            let (node, node_end_pos): (KeyValue, usize) = if tag == 0 {
                let mut child = KeyValue {
                    name: name_s,
                    data: KeyValueData::NoData,
                    children: Vec::new(),
                    valid: true,
                };
                match child.read_as_binary(input, v) {
                    Ok(m) => {
                        proof {
                            assert(kv_diag(input@, cur as int, true) == KvDiag::DOk(m as int));
                            assert(node_at(input@, cur as int, child)) by {
                                let cr = choose|cr: Seq<KeyValue>|
                                    #![trigger raw_mark(cr)]
                                    raw_mark(cr) && list_at(input@, v as int, cr)
                                        && child.children@ == fold_insert(Seq::empty(), cr);
                                assert(raw_mark(cr) && list_at(input@, v as int, cr)
                                    && child.children@ == fold_insert(Seq::empty(), cr));
                            };
                        }
                        (child, m)
                    },
                    Err(e) => {
                        proof {
                            assert(kv_diag(input@, cur as int, true) == KvDiag::DErr(e));
                        }
                        return Err(e);
                    },
                }
            } else if tag == 1 {
                match read_nul_string(input, v) {
                    Ok((val_s, e2p)) => {
                        let node = KeyValue {
                            name: name_s,
                            data: KeyValueData::Text(val_s),
                            children: Vec::new(),
                            valid: true,
                        };
                        proof {
                            assert(kv_diag(input@, cur as int, true) == KvDiag::DOk(e2p as int));
                            assert(node_at(input@, cur as int, node));
                        }
                        (node, e2p)
                    },
                    Err(e) => {
                        proof {
                            assert(kv_diag(input@, cur as int, true) == KvDiag::DErr(
                                KeyValueError::Io,
                            ));
                        }
                        return Err(e);
                    },
                }
            } else if tag == 5 {
                proof {
                    assert(kv_diag(input@, cur as int, true) == KvDiag::DErr(
                        KeyValueError::UnsupportedType(KeyValueType::WideText),
                    ));
                }
                return Err(KeyValueError::UnsupportedType(KeyValueType::WideText));
            } else if tag == 7 {
                if len - v < 8 {
                    proof {
                        assert(kv_diag(input@, cur as int, true) == KvDiag::DErr(
                            KeyValueError::Io,
                        ));
                    }
                    return Err(KeyValueError::Io);
                }
                let value: u64 = read_le(input, v, 8);
                let node = KeyValue {
                    name: name_s,
                    data: KeyValueData::UInt64(value),
                    children: Vec::new(),
                    valid: true,
                };
                proof {
                    assert(kv_diag(input@, cur as int, true) == KvDiag::DOk(v + 8));
                    assert(node_at(input@, cur as int, node));
                }
                (node, v + 8)
            } else {
                if len - v < 4 {
                    proof {
                        assert(kv_diag(input@, cur as int, true) == KvDiag::DErr(
                            KeyValueError::Io,
                        ));
                    }
                    return Err(KeyValueError::Io);
                }
                proof {
                    lemma_le_val_bound(input@, v as int, 4);
                    assert(crate::frame::pow256(4) == 0x1_0000_0000) by {
                        reveal_with_fuel(crate::frame::pow256, 5);
                    };
                }
                let bits: u32 = read_le(input, v, 4) as u32;
                let data = if tag == 2 {
                    let value: i32 = if bits < 0x8000_0000 {
                        bits as i32
                    } else {
                        ((bits as i64) - 0x1_0000_0000) as i32
                    };
                    assert(value == i32_of_bits(bits));
                    KeyValueData::Int32(value)
                } else if tag == 3 {
                    KeyValueData::Float32(bits)
                } else {
                    KeyValueData::Color(bits)
                };
                let node = KeyValue { name: name_s, data, children: Vec::new(), valid: true };
                proof {
                    assert(kv_diag(input@, cur as int, true) == KvDiag::DOk(v + 4));
                    assert(node_at(input@, cur as int, node));
                }
                (node, v + 4)
            };
            proof {
                assert(node_end(input@, cur as int) == Some(node_end_pos as int));
                lemma_run_to_snoc(
                    input@,
                    pos as int,
                    raw,
                    cur as int,
                    node,
                    node_end_pos as int,
                );
                lemma_fold_insert_push(old(self).children@, raw, node);
                assert(kv_diag(input@, cur as int, false) == kv_diag(
                    input@,
                    node_end_pos as int,
                    false,
                ));
            }
            insert_child_exec(&mut self.children, node);
            proof {
                raw = raw.push(node);
            }
            cur = node_end_pos;
        }
    }

    /// Decodes a whole schema byte stream into a fresh root node. Bytes
    /// after the top-level End tag are ignored, as the format allows. On
    /// failure the partly built tree is discarded.
    pub fn load_from_bytes(bytes: &Vec<u8>) -> (r: Result<KeyValue, KeyValueError>)
        ensures
            r is Ok ==> {
                &&& r.unwrap().name@ == "<root>"@
                &&& r.unwrap().data is NoData
                &&& r.unwrap().valid == true
                &&& names_unique(r.unwrap().children@)
                &&& exists|raw: Seq<KeyValue>|
                    #![trigger raw_mark(raw)]
                    raw_mark(raw) && list_at(bytes@, 0, raw) && r.unwrap().children@
                        == fold_insert(Seq::empty(), raw)
            },
            r is Err ==> kv_diag(bytes@, 0, false) == KvDiag::DErr(r.unwrap_err()),
    {
        let mut kv = KeyValue::root();
        match kv.read_as_binary(bytes, 0) {
            Ok(_) => Ok(kv),
            Err(e) => Err(e),
        }
    }
}

// ---------------------------------------------------------------------------
// Decimal text for the accessors.
// ---------------------------------------------------------------------------
/// The character of one decimal digit.
pub open spec fn digit_char(d: int) -> char {
    if d == 0 {
        '0'
    } else if d == 1 {
        '1'
    } else if d == 2 {
        '2'
    } else if d == 3 {
        '3'
    } else if d == 4 {
        '4'
    } else if d == 5 {
        '5'
    } else if d == 6 {
        '6'
    } else if d == 7 {
        '7'
    } else if d == 8 {
        '8'
    } else {
        '9'
    }
}

/// The decimal digits of `n`, most significant first.
pub open spec fn dec_chars(n: nat) -> Seq<char>
    decreases n,
{
    if n < 10 {
        seq![digit_char(n as int)]
    } else {
        dec_chars(n / 10) + seq![digit_char((n % 10) as int)]
    }
}

/// The decimal rendering of a signed number: a minus sign, then digits.
pub open spec fn i32_dec_chars(v: int) -> Seq<char> {
    if v >= 0 {
        dec_chars(v as nat)
    } else {
        seq!['-'] + dec_chars((-v) as nat)
    }
}

/// Appends one decimal digit character.
fn push_digit(s: &mut String, d: u8)
    requires
        d < 10,
    ensures
        final(s)@ == old(s)@ + seq![digit_char(d as int)],
{
    proof {
        reveal_strlit("0");
        reveal_strlit("1");
        reveal_strlit("2");
        reveal_strlit("3");
        reveal_strlit("4");
        reveal_strlit("5");
        reveal_strlit("6");
        reveal_strlit("7");
        reveal_strlit("8");
        reveal_strlit("9");
    }
    if d == 0 {
        s.append("0");
        assert(final(s)@ =~= old(s)@ + seq![digit_char(d as int)]);
    } else if d == 1 {
        s.append("1");
        assert(final(s)@ =~= old(s)@ + seq![digit_char(d as int)]);
    } else if d == 2 {
        s.append("2");
        assert(final(s)@ =~= old(s)@ + seq![digit_char(d as int)]);
    } else if d == 3 {
        s.append("3");
        assert(final(s)@ =~= old(s)@ + seq![digit_char(d as int)]);
    } else if d == 4 {
        s.append("4");
        assert(final(s)@ =~= old(s)@ + seq![digit_char(d as int)]);
    } else if d == 5 {
        s.append("5");
        assert(final(s)@ =~= old(s)@ + seq![digit_char(d as int)]);
    } else if d == 6 {
        s.append("6");
        assert(final(s)@ =~= old(s)@ + seq![digit_char(d as int)]);
    } else if d == 7 {
        s.append("7");
        assert(final(s)@ =~= old(s)@ + seq![digit_char(d as int)]);
    } else if d == 8 {
        s.append("8");
        assert(final(s)@ =~= old(s)@ + seq![digit_char(d as int)]);
    } else {
        s.append("9");
        assert(final(s)@ =~= old(s)@ + seq![digit_char(d as int)]);
    }
}

/// Appends the decimal digits of `n`.
fn push_dec(s: &mut String, n: u64)
    ensures
        final(s)@ == old(s)@ + dec_chars(n as nat),
    decreases n,
{
    if n < 10 {
        push_digit(s, n as u8);
    } else {
        push_dec(s, n / 10);
        push_digit(s, (n % 10) as u8);
        assert(final(s)@ =~= old(s)@ + dec_chars(n as nat));
    }
}

/// Renders an unsigned number in decimal.
pub fn u64_to_dec_string(n: u64) -> (r: String)
    ensures
        r@ == dec_chars(n as nat),
{
    let mut s = String::new();
    push_dec(&mut s, n);
    s
}

/// Renders a signed number in decimal.
pub fn i32_to_dec_string(v: i32) -> (r: String)
    ensures
        r@ == i32_dec_chars(v as int),
{
    let mut s = String::new();
    if v >= 0 {
        push_dec(&mut s, v as u64);
    } else {
        proof {
            reveal_strlit("-");
        }
        s.append("-");
        let mag: u64 = (-(v as i64)) as u64;
        push_dec(&mut s, mag);
        assert(s@ =~= seq!['-'] + dec_chars(mag as nat));
    }
    s
}

// ---------------------------------------------------------------------------
// Parsing decimal text, as the accessors coerce string leaves.
// ---------------------------------------------------------------------------
/// The value of one decimal digit character, if it is one.
pub open spec fn char_digit(c: char) -> Option<int> {
    if c == '0' {
        Some(0int)
    } else if c == '1' {
        Some(1int)
    } else if c == '2' {
        Some(2int)
    } else if c == '3' {
        Some(3int)
    } else if c == '4' {
        Some(4int)
    } else if c == '5' {
        Some(5int)
    } else if c == '6' {
        Some(6int)
    } else if c == '7' {
        Some(7int)
    } else if c == '8' {
        Some(8int)
    } else if c == '9' {
        Some(9int)
    } else {
        None
    }
}

/// Every character is a decimal digit.
pub open spec fn all_digits(s: Seq<char>) -> bool {
    forall|i: int| 0 <= i < s.len() ==> char_digit(#[trigger] s[i]) is Some
}

/// The number the digit characters spell, read left to right.
pub open spec fn digits_val(s: Seq<char>) -> int
    decreases s.len(),
{
    if s.len() == 0 {
        0
    } else {
        digits_val(s.drop_last()) * 10 + match char_digit(s.last()) {
            Some(d) => d,
            None => 0,
        }
    }
}

/// What `str::parse::<i32>` accepts and returns: an optional sign, then
/// one or more decimal digits, valued within the type's range; anything
/// else — empty, stray characters, overflow — is no number.
pub open spec fn spec_parse_i32(s: Seq<char>) -> Option<i32> {
    let signed = s.len() >= 1 && (s[0] == '+' || s[0] == '-');
    let body = if signed {
        s.drop_first()
    } else {
        s
    };
    let neg = s.len() >= 1 && s[0] == '-';
    if body.len() == 0 || !all_digits(body) {
        None
    } else {
        let v = if neg {
            -digits_val(body)
        } else {
            digits_val(body)
        };
        if v < -0x8000_0000 || v > 0x7FFF_FFFF {
            None
        } else {
            Some(v as i32)
        }
    }
}

pub proof fn lemma_digits_val_nonneg(s: Seq<char>)
    ensures
        digits_val(s) >= 0,
    decreases s.len(),
{
    if s.len() > 0 {
        lemma_digits_val_nonneg(s.drop_last());
    }
}

/// Dropping trailing digits never increases the value.
pub proof fn lemma_digits_val_prefix(s: Seq<char>, m: int)
    requires
        0 <= m <= s.len(),
    ensures
        digits_val(s.subrange(0, m)) <= digits_val(s),
    decreases s.len() - m,
{
    if m < s.len() {
        lemma_digits_val_prefix(s.subrange(0, s.len() - 1), m);
        assert(s.subrange(0, s.len() - 1).subrange(0, m) =~= s.subrange(0, m));
        assert(s.drop_last() =~= s.subrange(0, s.len() - 1));
        lemma_digits_val_nonneg(s.drop_last());
    } else {
        assert(s.subrange(0, m) =~= s);
    }
}

/// The digit value of a character, as the parser reads it.
pub(crate) fn char_digit_exec(c: char) -> (r: Option<u8>)
    ensures
        r is Some <==> char_digit(c) is Some,
        r is Some ==> r.unwrap() as int == char_digit(c).unwrap(),
{
    if c == '0' {
        Some(0)
    } else if c == '1' {
        Some(1)
    } else if c == '2' {
        Some(2)
    } else if c == '3' {
        Some(3)
    } else if c == '4' {
        Some(4)
    } else if c == '5' {
        Some(5)
    } else if c == '6' {
        Some(6)
    } else if c == '7' {
        Some(7)
    } else if c == '8' {
        Some(8)
    } else if c == '9' {
        Some(9)
    } else {
        None
    }
}

/// Parses decimal text as `str::parse::<i32>` does.
pub fn parse_i32_str(s: &str) -> (r: Option<i32>)
    ensures
        r == spec_parse_i32(s@),
{
    let n: usize = s.unicode_len();
    if n == 0 {
        return None;
    }
    let c0: char = s.get_char(0);
    let mut idx: usize = 0;
    let mut neg: bool = false;
    if c0 == '+' {
        idx = 1;
    } else if c0 == '-' {
        neg = true;
        idx = 1;
    }
    if idx >= n {
        return None;
    }
    let ghost body: Seq<char> = if s@[0] == '+' || s@[0] == '-' {
        s@.drop_first()
    } else {
        s@
    };
    proof {
        assert(body =~= s@.subrange(idx as int, n as int));
    }
    let mut acc: u64 = 0;
    let mut j: usize = idx;
    while j < n
        invariant
            0 <= idx <= j <= n,
            idx <= 1,
            1 <= n == s@.len(),
            (idx == 1) <==> (s@[0] == '+' || s@[0] == '-'),
            neg <==> (s@[0] == '-'),
            body == s@.subrange(idx as int, n as int),
            all_digits(s@.subrange(idx as int, j as int)),
            acc as int == digits_val(s@.subrange(idx as int, j as int)),
            acc <= 0x8000_0000,
        decreases n - j,
    {
        let c: char = s.get_char(j);
        let d: u8 = match char_digit_exec(c) {
            Some(d) => d,
            None => {
                proof {
                    assert(body[j - idx] == s@[j as int]);
                    assert(!all_digits(body));
                }
                return None;
            },
        };
        let next: u64 = acc * 10 + (d as u64);
        proof {
            let p = s@.subrange(idx as int, j + 1);
            assert(p.drop_last() =~= s@.subrange(idx as int, j as int));
            assert(p.last() == s@[j as int]);
            assert(digits_val(p) == next);
            assert(all_digits(p)) by {
                assert forall|t: int| 0 <= t < p.len() implies char_digit(#[trigger] p[t])
                    is Some by {
                    if t < p.len() - 1 {
                        assert(p[t] == s@.subrange(idx as int, j as int)[t]);
                    }
                }
            };
            if next > 0x8000_0000 {
                if all_digits(body) {
                    assert(p =~= body.subrange(0, j + 1 - idx));
                    lemma_digits_val_prefix(body, j + 1 - idx);
                    lemma_digits_val_nonneg(body);
                    assert(digits_val(body) >= digits_val(p));
                    assert(digits_val(body) > 0x8000_0000);
                    let sgn = s@.len() >= 1 && (s@[0] == '+' || s@[0] == '-');
                    let sbody = if sgn {
                        s@.drop_first()
                    } else {
                        s@
                    };
                    let sneg = s@.len() >= 1 && s@[0] == '-';
                    assert(sbody == body);
                    let vv = if sneg {
                        -digits_val(sbody)
                    } else {
                        digits_val(sbody)
                    };
                    assert(vv < -0x8000_0000 || vv > 0x7FFF_FFFF);
                    assert(spec_parse_i32(s@) is None);
                } else {
                    assert(spec_parse_i32(s@) is None);
                }
            }
        }
        if next > 0x8000_0000 {
            return None;
        }
        acc = next;
        j = j + 1;
    }
    proof {
        assert(s@.subrange(idx as int, j as int) =~= body);
        lemma_digits_val_nonneg(body);
    }
    if neg {
        let value: i32 = (-(acc as i64)) as i32;
        Some(value)
    } else {
        if acc == 0x8000_0000 {
            return None;
        }
        Some(acc as i32)
    }
}

// ---------------------------------------------------------------------------
// Truncating a float leaf to an integer, on its bit pattern.
// ---------------------------------------------------------------------------
/// Two to the power `k`.
pub open spec fn pow2(k: nat) -> nat
    decreases k,
{
    if k == 0 {
        1
    } else {
        2 * pow2((k - 1) as nat)
    }
}

/// What casting an IEEE 754 single to `i32` yields, computed on the bit
/// pattern: truncation toward zero, saturating at the type's bounds, zero
/// for any not-a-number pattern.
pub open spec fn f32_trunc_i32(bits: u32) -> i32 {
    let sign = bits / 0x8000_0000;
    let exp = (bits / 0x80_0000) % 0x100;
    let frac = bits % 0x80_0000;
    if exp == 255 {
        if frac != 0 {
            0
        } else if sign == 0 {
            0x7FFF_FFFF
        } else {
            (-0x8000_0000) as i32
        }
    } else if exp < 127 {
        0
    } else if exp - 127 >= 31 {
        if sign == 0 {
            0x7FFF_FFFF
        } else {
            (-0x8000_0000) as i32
        }
    } else {
        let e = exp - 127;
        let m = (0x80_0000 + frac) as int;
        let mag = if e >= 23 {
            m * pow2((e - 23) as nat)
        } else {
            m / pow2((23 - e) as nat) as int
        };
        if sign == 0 {
            if mag > 0x7FFF_FFFF {
                0x7FFF_FFFF
            } else {
                mag as i32
            }
        } else {
            if mag > 0x8000_0000 {
                (-0x8000_0000) as i32
            } else {
                (-mag) as i32
            }
        }
    }
}

/// A small power of two, for the truncation's shifts.
fn pow2_exec(k: u64) -> (r: u64)
    requires
        k <= 31,
    ensures
        r == pow2(k as nat),
        1 <= r,
    decreases k,
{
    if k == 0 {
        1
    } else {
        let half: u64 = pow2_exec(k - 1);
        proof {
            lemma_pow2_le(k as nat);
        }
        2 * half
    }
}

proof fn lemma_pow2_le(k: nat)
    requires
        k <= 31,
    ensures
        pow2(k) <= 0x8000_0000,
    decreases k,
{
    if k > 0 {
        lemma_pow2_le((k - 1) as nat);
        assert(pow2(31) == 0x8000_0000) by {
            reveal_with_fuel(pow2, 32);
        };
        lemma_pow2_increases(k, 31);
    }
}

proof fn lemma_pow2_increases(a: nat, c: nat)
    requires
        a <= c,
    ensures
        pow2(a) <= pow2(c),
    decreases c,
{
    if a < c {
        lemma_pow2_increases(a, (c - 1) as nat);
        assert(pow2(c) == 2 * pow2((c - 1) as nat));
    }
}

/// Truncates a float leaf's bit pattern to `i32`.
pub fn f32_bits_to_i32(bits: u32) -> (r: i32)
    ensures
        r == f32_trunc_i32(bits),
{
    let sign: u32 = bits / 0x8000_0000;
    let exp: u32 = (bits / 0x80_0000) % 0x100;
    let frac: u32 = bits % 0x80_0000;
    if exp == 255 {
        if frac != 0 {
            0
        } else if sign == 0 {
            0x7FFF_FFFF
        } else {
            -0x8000_0000
        }
    } else if exp < 127 {
        0
    } else if exp - 127 >= 31 {
        if sign == 0 {
            0x7FFF_FFFF
        } else {
            -0x8000_0000
        }
    } else {
        let e: u32 = exp - 127;
        let m: u64 = (0x80_0000 + frac) as u64;
        let mag: u64 = if e >= 23 {
            let f: u64 = pow2_exec((e - 23) as u64);
            proof {
                assert(pow2((e - 23) as nat) <= pow2(7)) by {
                    lemma_pow2_increases((e - 23) as nat, 7);
                };
                assert(pow2(7) == 128) by {
                    reveal_with_fuel(pow2, 8);
                };
                assert(m * f <= 0x100_0000 * 128) by (nonlinear_arith)
                    requires
                        m <= 0x100_0000,
                        f <= 128,
                ;
            }
            m * f
        } else {
            m / pow2_exec((23 - e) as u64)
        };
        proof {
            lemma_pow2_le(0);
        }
        if sign == 0 {
            if mag > 0x7FFF_FFFF {
                0x7FFF_FFFF
            } else {
                mag as i32
            }
        } else {
            if mag > 0x8000_0000 {
                -0x8000_0000
            } else {
                -(mag as i64) as i32
            }
        }
    }
}

// ---------------------------------------------------------------------------
// Lookups and accessors.
// ---------------------------------------------------------------------------
/// The first child carrying `name`, if any. Decoded trees keep sibling
/// names pairwise distinct, so the first match is the only one.
pub open spec fn lookup_child(children: Seq<KeyValue>, name: Seq<char>) -> Option<KeyValue>
    decreases children.len(),
{
    if children.len() == 0 {
        None
    } else if children.first().name@ == name {
        Some(children.first())
    } else {
        lookup_child(children.drop_first(), name)
    }
}

/// What `as_string` returns: the leaf value rendered as text, or the
/// caller's default on the sentinel, on a valueless node, and on a float
/// leaf, which plain-integer code cannot render.
pub open spec fn spec_as_string(kv: KeyValue, default: Seq<char>) -> Seq<char> {
    if !kv.valid {
        default
    } else {
        match kv.data {
            KeyValueData::Text(s) => s@,
            KeyValueData::Int32(v) => i32_dec_chars(v as int),
            KeyValueData::UInt64(u) => dec_chars(u as nat),
            KeyValueData::Color(c) => dec_chars(c as nat),
            KeyValueData::Float32(_) => default,
            KeyValueData::NoData => default,
        }
    }
}

/// What `as_i32` returns: the leaf value coerced to a signed integer —
/// text parsed as decimal, a float truncated on its bit pattern, the low
/// half of a 64-bit value reinterpreted — or the caller's default where
/// no coercion exists.
pub open spec fn spec_as_i32(kv: KeyValue, default: i32) -> i32 {
    if !kv.valid {
        default
    } else {
        match kv.data {
            KeyValueData::Text(s) => match spec_parse_i32(s@) {
                Some(v) => v,
                None => default,
            },
            KeyValueData::Int32(v) => v,
            KeyValueData::Float32(bits) => f32_trunc_i32(bits),
            KeyValueData::UInt64(u) => i32_of_bits((u % 0x1_0000_0000) as u32),
            _ => default,
        }
    }
}

/// What `as_bool` returns: whether the leaf value is nonzero — for a
/// float leaf, whether its bit pattern is neither of the two zeros — or
/// the caller's default where no coercion exists.
pub open spec fn spec_as_bool(kv: KeyValue, default: bool) -> bool {
    if !kv.valid {
        default
    } else {
        match kv.data {
            KeyValueData::Text(s) => match spec_parse_i32(s@) {
                Some(v) => v != 0,
                None => default,
            },
            KeyValueData::Int32(v) => v != 0,
            KeyValueData::Float32(bits) => bits % 0x8000_0000 != 0,
            KeyValueData::UInt64(u) => u != 0,
            _ => default,
        }
    }
}

/// The values of two nodes match, text compared by its characters.
pub open spec fn data_like(a: KeyValueData, b: KeyValueData) -> bool {
    match (a, b) {
        (KeyValueData::NoData, KeyValueData::NoData) => true,
        (KeyValueData::Text(x), KeyValueData::Text(y)) => x@ == y@,
        (KeyValueData::Int32(x), KeyValueData::Int32(y)) => x == y,
        (KeyValueData::Float32(x), KeyValueData::Float32(y)) => x == y,
        (KeyValueData::UInt64(x), KeyValueData::UInt64(y)) => x == y,
        (KeyValueData::Color(x), KeyValueData::Color(y)) => x == y,
        _ => false,
    }
}

/// Two trees are indistinguishable: same names, values, validity and
/// children, all the way down.
pub open spec fn kv_like(a: KeyValue, b: KeyValue) -> bool
    decreases a,
{
    &&& a.name@ == b.name@
    &&& a.valid == b.valid
    &&& data_like(a.data, b.data)
    &&& a.children@.len() == b.children@.len()
    &&& forall|k: int|
        0 <= k < a.children@.len() ==> kv_like(#[trigger] a.children@[k], b.children@[k])
}

/// Indistinguishable nodes render to the same text.
pub proof fn lemma_like_as_string(a: KeyValue, b: KeyValue, default: Seq<char>)
    requires
        kv_like(a, b),
    ensures
        spec_as_string(a, default) == spec_as_string(b, default),
{
}

/// Indistinguishable nodes coerce to the same integer.
pub proof fn lemma_like_as_i32(a: KeyValue, b: KeyValue, default: i32)
    requires
        kv_like(a, b),
    ensures
        spec_as_i32(a, default) == spec_as_i32(b, default),
{
}

/// Indistinguishable nodes coerce to the same boolean.
pub proof fn lemma_like_as_bool(a: KeyValue, b: KeyValue, default: bool)
    requires
        kv_like(a, b),
    ensures
        spec_as_bool(a, default) == spec_as_bool(b, default),
{
}

impl KeyValue {
    /// The missing-lookup sentinel: always invalid, never part of any
    /// tree, so lookups never need a null result.
    pub fn invalid() -> (r: KeyValue)
        ensures
            r.valid == false,
            r.data is NoData,
            r.children@ == Seq::<KeyValue>::empty(),
            r.name@ == "<invalid>"@,
    {
        KeyValue {
            name: String::from_str("<invalid>"),
            data: KeyValueData::NoData,
            children: Vec::new(),
            valid: false,
        }
    }

    /// A copy of this node and everything under it, indistinguishable
    /// from the original.
    pub fn deep_copy(&self) -> (r: KeyValue)
        ensures
            kv_like(r, *self),
        decreases *self,
    {
        let n: usize = self.children.len();
        let mut kids: Vec<KeyValue> = Vec::new();
        let mut k: usize = 0;
        while k < n
            invariant
                0 <= k <= n,
                n == self.children@.len(),
                kids@.len() == k,
                forall|t: int|
                    0 <= t < k ==> kv_like(#[trigger] kids@[t], self.children@[t]),
            decreases n - k,
        {
            kids.push(self.children[k].deep_copy());
            k = k + 1;
        }
        let data = match &self.data {
            KeyValueData::NoData => KeyValueData::NoData,
            KeyValueData::Text(s) => KeyValueData::Text(s.clone()),
            KeyValueData::Int32(v) => KeyValueData::Int32(*v),
            KeyValueData::Float32(b) => KeyValueData::Float32(*b),
            KeyValueData::UInt64(u) => KeyValueData::UInt64(*u),
            KeyValueData::Color(c) => KeyValueData::Color(*c),
        };
        KeyValue { name: self.name.clone(), data, children: kids, valid: self.valid }
    }

    /// Looks a child up by name. A hit comes back as an exact copy of the
    /// child; a miss comes back as the invalid sentinel, so the result
    /// always supports the accessors and chained lookups.
    pub fn get(&self, key: &str) -> (r: KeyValue)
        ensures
            lookup_child(self.children@, key@) is Some ==> kv_like(
                r,
                lookup_child(self.children@, key@).unwrap(),
            ),
            lookup_child(self.children@, key@) is None ==> {
                &&& r.valid == false
                &&& r.data is NoData
                &&& r.children@ == Seq::<KeyValue>::empty()
            },
    {
        let n: usize = self.children.len();
        proof {
            assert(self.children@.subrange(0, n as int) =~= self.children@);
        }
        let mut k: usize = 0;
        while k < n
            invariant
                0 <= k <= n,
                n == self.children@.len(),
                lookup_child(self.children@, key@) == lookup_child(
                    self.children@.subrange(k as int, n as int),
                    key@,
                ),
            decreases n - k,
        {
            let ghost rest = self.children@.subrange(k as int, n as int);
            if str_eq(self.children[k].name.as_str(), key) {
                proof {
                    assert(rest.first() == self.children@[k as int]);
                }
                return self.children[k].deep_copy();
            }
            proof {
                assert(rest.first() == self.children@[k as int]);
                assert(rest.drop_first() =~= self.children@.subrange(k + 1, n as int));
            }
            k = k + 1;
        }
        proof {
            assert(self.children@.subrange(n as int, n as int) =~= Seq::<KeyValue>::empty());
        }
        KeyValue::invalid()
    }

    /// The node's value as text, or `default` where it has none that can
    /// be rendered.
    pub fn as_string(&self, default: &str) -> (r: String)
        ensures
            r@ == spec_as_string(*self, default@),
    {
        if !self.valid {
            return default.to_owned();
        }
        match &self.data {
            KeyValueData::Text(s) => s.clone(),
            KeyValueData::Int32(v) => i32_to_dec_string(*v),
            KeyValueData::UInt64(u) => u64_to_dec_string(*u),
            KeyValueData::Color(c) => u64_to_dec_string(*c as u64),
            KeyValueData::Float32(_) => default.to_owned(),
            KeyValueData::NoData => default.to_owned(),
        }
    }

    /// The node's value as a signed integer, or `default` where it has
    /// none that coerces.
    pub fn as_i32(&self, default: i32) -> (r: i32)
        ensures
            r == spec_as_i32(*self, default),
    {
        if !self.valid {
            return default;
        }
        match &self.data {
            KeyValueData::Text(s) => match parse_i32_str(s.as_str()) {
                Some(v) => v,
                None => default,
            },
            KeyValueData::Int32(v) => *v,
            KeyValueData::Float32(bits) => f32_bits_to_i32(*bits),
            KeyValueData::UInt64(u) => {
                let low: u32 = (*u % 0x1_0000_0000) as u32;
                if low < 0x8000_0000 {
                    low as i32
                } else {
                    ((low as i64) - 0x1_0000_0000) as i32
                }
            },
            _ => default,
        }
    }

    /// The node's value as a boolean — is it nonzero? — or `default`
    /// where it has none that coerces.
    pub fn as_bool(&self, default: bool) -> (r: bool)
        ensures
            r == spec_as_bool(*self, default),
    {
        if !self.valid {
            return default;
        }
        match &self.data {
            KeyValueData::Text(s) => match parse_i32_str(s.as_str()) {
                Some(v) => v != 0,
                None => default,
            },
            KeyValueData::Int32(v) => *v != 0,
            KeyValueData::Float32(bits) => *bits % 0x8000_0000 != 0,
            KeyValueData::UInt64(u) => *u != 0,
            _ => default,
        }
    }
}

/// Character-for-character string equality, through the UTF-8 bytes that
/// carry the characters.
fn str_eq(a: &str, b: &str) -> (r: bool)
    ensures
        r == (a@ == b@),
{
    let av: Vec<u8> = a.as_bytes_vec();
    let bv: Vec<u8> = b.as_bytes_vec();
    let r = av == bv;
    proof {
        broadcast use vstd::utf8::encode_utf8_decode_utf8;

        if r {
            assert(av@ =~= bv@);
            assert(decode_utf8(vstd::utf8::encode_utf8(a@)) == a@);
            assert(decode_utf8(vstd::utf8::encode_utf8(b@)) == b@);
        } else {
            if a@ == b@ {
                assert(av@ == bv@);
                assert(av@ =~= bv@);
                assert(false);
            }
        }
    }
    r
}

} // verus!
