//! The workspace tree builder: turns a raw enumeration of a directory
//! subtree into an ordered, depth-limited view. Folders sort before files,
//! names compare by their UTF-8 bytes, and a folder's children are expanded
//! only while the depth budget lasts.

use vstd::prelude::*;
use vstd::string::StrSliceExecFns;
use vstd::utf8::encode_utf8;

verus! {

/// The depth budget the external open-folder operation uses.
pub const DEFAULT_MAX_DEPTH: usize = 3;

/// What a caller saw when it enumerated one directory entry: a file, or a
/// directory together with whatever of its own entries could be enumerated.
pub enum RawNode {
    File,
    Dir(Vec<RawEntry>),
}

/// One enumerated directory entry, as the caller hands it in.
pub struct RawEntry {
    pub name: String,
    pub path: String,
    pub node: RawNode,
}

/// The kind of a tree node.
#[derive(Clone, Copy, PartialEq, Eq, Structural, Debug)]
pub enum ItemKind {
    File,
    Folder,
}

/// One node of the built workspace tree. `children` is present exactly for
/// folders whose level was within the depth budget; a folder at the budget's
/// edge carries no children field, which is distinct from an empty one.
pub struct FileItem {
    pub name: String,
    pub path: String,
    pub kind: ItemKind,
    pub children: Option<Vec<FileItem>>,
}

// ---------------------------------------------------------------------------
// The ordering of one level: folders first, then ascending byte order of the
// names.
// ---------------------------------------------------------------------------

/// Byte-wise lexicographic less-or-equal.
pub open spec fn lex_le(a: Seq<u8>, b: Seq<u8>) -> bool
    decreases a.len(),
{
    if a.len() == 0 {
        true
    } else if b.len() == 0 {
        false
    } else if a[0] < b[0] {
        true
    } else if a[0] > b[0] {
        false
    } else {
        lex_le(a.drop_first(), b.drop_first())
    }
}

pub open spec fn entry_is_dir(e: RawEntry) -> bool {
    e.node is Dir
}

/// The comparator of one level: directories before files; within a kind,
/// names in byte order.
pub open spec fn entry_le(a: RawEntry, b: RawEntry) -> bool {
    if entry_is_dir(a) != entry_is_dir(b) {
        entry_is_dir(a)
    } else {
        lex_le(encode_utf8(a.name@), encode_utf8(b.name@))
    }
}

pub open spec fn sorted_entries(s: Seq<RawEntry>) -> bool {
    forall|i: int, j: int| 0 <= i < j < s.len() ==> entry_le(s[i], s[j])
}

/// Stable insertion: the entry goes in front of the first element it
/// compares less-or-equal to, so equal keys keep their original order.
pub open spec fn insert_sorted(e: RawEntry, s: Seq<RawEntry>) -> Seq<RawEntry>
    decreases s.len(),
{
    if s.len() == 0 {
        seq![e]
    } else if entry_le(e, s[0]) {
        seq![e] + s
    } else {
        seq![s[0]] + insert_sorted(e, s.drop_first())
    }
}

/// Stable insertion sort of one level.
pub open spec fn sort_entries_spec(s: Seq<RawEntry>) -> Seq<RawEntry>
    decreases s.len(),
{
    if s.len() == 0 {
        Seq::empty()
    } else {
        insert_sorted(s[0], sort_entries_spec(s.drop_first()))
    }
}

proof fn lemma_lex_le_total(a: Seq<u8>, b: Seq<u8>)
    ensures
        lex_le(a, b) || lex_le(b, a),
    decreases a.len(),
{
    if a.len() != 0 && b.len() != 0 && a[0] == b[0] {
        lemma_lex_le_total(a.drop_first(), b.drop_first());
    }
}

proof fn lemma_lex_le_trans(a: Seq<u8>, b: Seq<u8>, c: Seq<u8>)
    requires
        lex_le(a, b),
        lex_le(b, c),
    ensures
        lex_le(a, c),
    decreases a.len(),
{
    if a.len() != 0 && b.len() != 0 && c.len() != 0 && a[0] == b[0] && b[0] == c[0] {
        lemma_lex_le_trans(a.drop_first(), b.drop_first(), c.drop_first());
    }
}

proof fn lemma_entry_le_total(a: RawEntry, b: RawEntry)
    ensures
        entry_le(a, b) || entry_le(b, a),
{
    lemma_lex_le_total(encode_utf8(a.name@), encode_utf8(b.name@));
}

proof fn lemma_entry_le_trans(a: RawEntry, b: RawEntry, c: RawEntry)
    requires
        entry_le(a, b),
        entry_le(b, c),
    ensures
        entry_le(a, c),
{
    if entry_is_dir(a) == entry_is_dir(b) && entry_is_dir(b) == entry_is_dir(c) {
        lemma_lex_le_trans(
            encode_utf8(a.name@),
            encode_utf8(b.name@),
            encode_utf8(c.name@),
        );
    }
}

proof fn lemma_prepend_multiset(e: RawEntry, s: Seq<RawEntry>)
    ensures
        (seq![e] + s).to_multiset() == s.to_multiset().insert(e),
{
    broadcast use vstd::multiset::group_multiset_axioms;

    vstd::seq_lib::lemma_multiset_commutative(seq![e], s);
    vstd::seq_lib::lemma_multiset_commutative(s, seq![e]);
    s.to_multiset_ensures();
    assert(s.push(e).to_multiset() =~= s.to_multiset().insert(e));
    assert(s.push(e) =~= s + seq![e]);
    assert((seq![e] + s).to_multiset() =~= s.to_multiset().insert(e));
}

proof fn lemma_insert_sorted_elem(e: RawEntry, s: Seq<RawEntry>, i: int)
    requires
        0 <= i < insert_sorted(e, s).len(),
    ensures
        insert_sorted(e, s)[i] == e || s.contains(insert_sorted(e, s)[i]),
    decreases s.len(),
{
    let r = insert_sorted(e, s);
    if s.len() == 0 {
    } else if entry_le(e, s[0]) {
        if i > 0 {
            assert(r[i] == s[i - 1]);
            assert(s.contains(s[i - 1]));
        }
    } else {
        let rt = insert_sorted(e, s.drop_first());
        if i == 0 {
            assert(r[0] == s[0]);
            assert(s.contains(s[0]));
        } else {
            lemma_insert_sorted_elem(e, s.drop_first(), i - 1);
            assert(r[i] == rt[i - 1]);
            if rt[i - 1] != e {
                let x = rt[i - 1];
                assert(s.drop_first().contains(x));
                let k = choose|k: int| 0 <= k < s.drop_first().len() && s.drop_first()[k] == x;
                assert(s[k + 1] == x);
                assert(s.contains(x));
            }
        }
    }
}

proof fn lemma_insert_sorted_ensures(e: RawEntry, s: Seq<RawEntry>)
    requires
        sorted_entries(s),
    ensures
        sorted_entries(insert_sorted(e, s)),
        insert_sorted(e, s).len() == s.len() + 1,
        insert_sorted(e, s).to_multiset() == s.to_multiset().insert(e),
    decreases s.len(),
{
    broadcast use vstd::multiset::group_multiset_axioms;

    let r = insert_sorted(e, s);
    if s.len() == 0 {
        assert(r =~= seq![e] + s);
        lemma_prepend_multiset(e, s);
    } else if entry_le(e, s[0]) {
        lemma_prepend_multiset(e, s);
        assert forall|i: int, j: int| 0 <= i < j < r.len() implies entry_le(r[i], r[j]) by {
            if i == 0 {
                if j == 1 {
                    assert(r[j] == s[0]);
                } else {
                    assert(r[j] == s[j - 1]);
                    assert(entry_le(s[0], s[j - 1]));
                    lemma_entry_le_trans(e, s[0], s[j - 1]);
                }
            } else {
                assert(r[i] == s[i - 1] && r[j] == s[j - 1]);
                assert(entry_le(s[i - 1], s[j - 1]));
            }
        }
    } else {
        let tail = s.drop_first();
        assert(sorted_entries(tail)) by {
            assert forall|i: int, j: int| 0 <= i < j < tail.len() implies entry_le(
                tail[i],
                tail[j],
            ) by {
                assert(entry_le(s[i + 1], s[j + 1]));
            }
        }
        lemma_insert_sorted_ensures(e, tail);
        let rt = insert_sorted(e, tail);
        assert(r == seq![s[0]] + rt);
        lemma_entry_le_total(e, s[0]);
        assert forall|i: int, j: int| 0 <= i < j < r.len() implies entry_le(r[i], r[j]) by {
            if i == 0 {
                assert(r[j] == rt[j - 1]);
                lemma_insert_sorted_elem(e, tail, j - 1);
                if rt[j - 1] == e {
                    assert(entry_le(s[0], e));
                } else {
                    let x = rt[j - 1];
                    let k = choose|k: int| 0 <= k < tail.len() && tail[k] == x;
                    assert(entry_le(s[0], s[k + 1]));
                    assert(s[k + 1] == x);
                }
            } else {
                assert(r[i] == rt[i - 1] && r[j] == rt[j - 1]);
                assert(entry_le(rt[i - 1], rt[j - 1]));
            }
        }
        lemma_prepend_multiset(s[0], rt);
        lemma_prepend_multiset(s[0], tail);
        assert(seq![s[0]] + tail =~= s);
        assert(r.to_multiset() =~= s.to_multiset().insert(e));
    }
}

/// The sort of one level keeps exactly the given entries and orders them by
/// the level comparator.
pub proof fn lemma_sort_entries_spec_ensures(s: Seq<RawEntry>)
    ensures
        sorted_entries(sort_entries_spec(s)),
        sort_entries_spec(s).len() == s.len(),
        sort_entries_spec(s).to_multiset() == s.to_multiset(),
    decreases s.len(),
{
    broadcast use vstd::multiset::group_multiset_axioms;

    if s.len() > 0 {
        lemma_sort_entries_spec_ensures(s.drop_first());
        lemma_insert_sorted_ensures(s[0], sort_entries_spec(s.drop_first()));
        lemma_prepend_multiset(s[0], s.drop_first());
        assert(seq![s[0]] + s.drop_first() =~= s);
        assert(sort_entries_spec(s).to_multiset() =~= s.to_multiset());
    } else {
        assert(s =~= Seq::<RawEntry>::empty());
    }
}

// ---------------------------------------------------------------------------
// The tree relation: what the builder promises about its output.
// ---------------------------------------------------------------------------

/// One built node mirrors one raw entry: same name and path, the kind the
/// enumeration saw, and children present exactly when the entry is a
/// directory within the depth budget, in which case they are the built
/// tree of the directory's own entries.
pub open spec fn entry_matches(e: RawEntry, item: FileItem, depth: nat, max_depth: nat) -> bool
    decreases max_depth - depth, 0nat, 0nat,
{
    &&& item.name@ == e.name@
    &&& item.path@ == e.path@
    &&& match e.node {
        RawNode::File => item.kind == ItemKind::File && item.children is None,
        RawNode::Dir(sub) => {
            &&& item.kind == ItemKind::Folder
            &&& if depth < max_depth {
                &&& item.children is Some
                &&& items_match(
                    sort_entries_spec(sub@),
                    item.children->0@,
                    (depth + 1) as nat,
                    max_depth,
                )
            } else {
                item.children is None
            }
        },
    }
}

/// The built nodes mirror the sorted entries one for one, in order.
pub open spec fn items_match(
    sorted: Seq<RawEntry>,
    items: Seq<FileItem>,
    depth: nat,
    max_depth: nat,
) -> bool
    decreases max_depth - depth, sorted.len(), 1nat,
{
    if sorted.len() == 0 {
        items.len() == 0
    } else {
        &&& items.len() == sorted.len()
        &&& entry_matches(sorted[0], items[0], depth, max_depth)
        &&& items_match(sorted.drop_first(), items.drop_first(), depth, max_depth)
    }
}

/// The whole contract of the tree builder: past the depth budget nothing is
/// emitted; otherwise the output mirrors the sorted entries.
pub open spec fn tree_matches(
    entries: Seq<RawEntry>,
    items: Seq<FileItem>,
    depth: nat,
    max_depth: nat,
) -> bool {
    if depth > max_depth {
        items.len() == 0
    } else {
        items_match(sort_entries_spec(entries), items, depth, max_depth)
    }
}

proof fn lemma_items_match_from_pointwise(
    sorted: Seq<RawEntry>,
    items: Seq<FileItem>,
    depth: nat,
    max_depth: nat,
)
    requires
        items.len() == sorted.len(),
        forall|i: int|
            0 <= i < sorted.len() ==> entry_matches(sorted[i], #[trigger] items[i], depth, max_depth),
    ensures
        items_match(sorted, items, depth, max_depth),
    decreases sorted.len(),
{
    if sorted.len() > 0 {
        assert forall|i: int|
            0 <= i < sorted.drop_first().len() implies entry_matches(
            sorted.drop_first()[i],
            #[trigger] items.drop_first()[i],
            depth,
            max_depth,
        ) by {
            assert(sorted.drop_first()[i] == sorted[i + 1]);
            assert(items.drop_first()[i] == items[i + 1]);
        }
        lemma_items_match_from_pointwise(
            sorted.drop_first(),
            items.drop_first(),
            depth,
            max_depth,
        );
    }
}

/// Reads the relation back pointwise: matching levels have equal length and
/// matching nodes position by position.
pub proof fn lemma_items_match_pointwise(
    sorted: Seq<RawEntry>,
    items: Seq<FileItem>,
    depth: nat,
    max_depth: nat,
)
    requires
        items_match(sorted, items, depth, max_depth),
    ensures
        items.len() == sorted.len(),
        forall|i: int|
            0 <= i < sorted.len() ==> entry_matches(sorted[i], #[trigger] items[i], depth, max_depth),
    decreases sorted.len(),
{
    if sorted.len() > 0 {
        lemma_items_match_pointwise(sorted.drop_first(), items.drop_first(), depth, max_depth);
        assert forall|i: int|
            0 <= i < sorted.len() implies entry_matches(
            sorted[i],
            #[trigger] items[i],
            depth,
            max_depth,
        ) by {
            if i > 0 {
                assert(sorted.drop_first()[i - 1] == sorted[i]);
                assert(items.drop_first()[i - 1] == items[i]);
                assert(entry_matches(sorted.drop_first()[i - 1], items.drop_first()[i - 1], depth, max_depth));
            }
        }
    }
}

// ---------------------------------------------------------------------------
// Laws of the built tree.
// ---------------------------------------------------------------------------

pub open spec fn item_is_folder(item: FileItem) -> bool {
    item.kind == ItemKind::Folder
}

/// The level comparator carried over to built nodes.
pub open spec fn item_le(a: FileItem, b: FileItem) -> bool {
    if item_is_folder(a) != item_is_folder(b) {
        item_is_folder(a)
    } else {
        lex_le(encode_utf8(a.name@), encode_utf8(b.name@))
    }
}

/// Depth boundary: in a built level, a node carries a children field exactly
/// when it is a folder and the level is within the depth budget. Folders at
/// the budget's edge are emitted with no children field at all.
pub proof fn lemma_children_iff_expanded(
    entries: Seq<RawEntry>,
    items: Seq<FileItem>,
    depth: nat,
    max_depth: nat,
)
    requires
        depth <= max_depth,
        tree_matches(entries, items, depth, max_depth),
    ensures
        forall|i: int|
            0 <= i < items.len() ==> ((#[trigger] items[i]).children is Some <==> items[i].kind
                == ItemKind::Folder && depth < max_depth),
{
    let sorted = sort_entries_spec(entries);
    lemma_items_match_pointwise(sorted, items, depth, max_depth);
    assert forall|i: int|
        0 <= i < items.len() implies ((#[trigger] items[i]).children is Some <==> items[i].kind
        == ItemKind::Folder && depth < max_depth) by {
        assert(entry_matches(sorted[i], items[i], depth, max_depth));
    }
}

/// Ordering: every built level lists folders before files and, within a
/// kind, names in ascending byte order.
pub proof fn lemma_level_ordered(
    entries: Seq<RawEntry>,
    items: Seq<FileItem>,
    depth: nat,
    max_depth: nat,
)
    requires
        depth <= max_depth,
        tree_matches(entries, items, depth, max_depth),
    ensures
        forall|i: int, j: int|
            0 <= i < j < items.len() ==> item_le(#[trigger] items[i], #[trigger] items[j]),
{
    let sorted = sort_entries_spec(entries);
    lemma_sort_entries_spec_ensures(entries);
    lemma_items_match_pointwise(sorted, items, depth, max_depth);
    assert forall|i: int, j: int|
        0 <= i < j < items.len() implies item_le(#[trigger] items[i], #[trigger] items[j]) by {
        assert(entry_matches(sorted[i], items[i], depth, max_depth));
        assert(entry_matches(sorted[j], items[j], depth, max_depth));
        assert(entry_le(sorted[i], sorted[j]));
        assert(item_is_folder(items[i]) == entry_is_dir(sorted[i]));
        assert(item_is_folder(items[j]) == entry_is_dir(sorted[j]));
    }
}

// ---------------------------------------------------------------------------
// Executable comparison, sort and build.
// ---------------------------------------------------------------------------

/// Byte-wise lexicographic comparison of two byte vectors.
fn bytes_le(a: &Vec<u8>, b: &Vec<u8>) -> (r: bool)
    ensures
        r == lex_le(a@, b@),
{
    let mut i: usize = 0;
    proof {
        assert(a@.skip(0) =~= a@);
        assert(b@.skip(0) =~= b@);
    }
    while i < a.len() && i < b.len()
        invariant
            i <= a@.len(),
            i <= b@.len(),
            lex_le(a@, b@) == lex_le(a@.skip(i as int), b@.skip(i as int)),
        decreases a@.len() - i,
    {
        let x = a[i];
        let y = b[i];
        proof {
            assert(a@.skip(i as int)[0] == a@[i as int]);
            assert(b@.skip(i as int)[0] == b@[i as int]);
        }
        if x < y {
            return true;
        }
        if x > y {
            return false;
        }
        proof {
            assert(a@.skip(i as int).drop_first() =~= a@.skip(i as int + 1));
            assert(b@.skip(i as int).drop_first() =~= b@.skip(i as int + 1));
        }
        i = i + 1;
    }
    if i == a.len() {
        proof {
            assert(a@.skip(i as int).len() == 0);
        }
        true
    } else {
        proof {
            assert(b@.skip(i as int).len() == 0);
            assert(a@.skip(i as int).len() > 0);
        }
        false
    }
}

/// The level comparator, executable.
fn entry_le_exec(a: &RawEntry, b: &RawEntry) -> (r: bool)
    ensures
        r == entry_le(*a, *b),
{
    let a_dir = match &a.node {
        RawNode::Dir(_) => true,
        RawNode::File => false,
    };
    let b_dir = match &b.node {
        RawNode::Dir(_) => true,
        RawNode::File => false,
    };
    if a_dir != b_dir {
        a_dir
    } else {
        let an = a.name.as_str().as_bytes_vec();
        let bn = b.name.as_str().as_bytes_vec();
        bytes_le(&an, &bn)
    }
}

proof fn lemma_insert_sorted_at(e: RawEntry, s: Seq<RawEntry>, k: int)
    requires
        0 <= k <= s.len(),
        forall|j: int| 0 <= j < k ==> !entry_le(e, #[trigger] s[j]),
        k < s.len() ==> entry_le(e, s[k]),
    ensures
        insert_sorted(e, s) == s.subrange(0, k) + seq![e] + s.skip(k),
    decreases k,
{
    if k == 0 {
        if s.len() == 0 {
            assert(insert_sorted(e, s) =~= s.subrange(0, 0) + seq![e] + s.skip(0));
        } else {
            assert(insert_sorted(e, s) == seq![e] + s);
            assert(seq![e] + s =~= s.subrange(0, 0) + seq![e] + s.skip(0));
        }
    } else {
        let tail = s.drop_first();
        assert forall|j: int| 0 <= j < k - 1 implies !entry_le(e, #[trigger] tail[j]) by {
            assert(tail[j] == s[j + 1]);
        }
        assert(k - 1 < tail.len() ==> entry_le(e, tail[k - 1])) by {
            if k - 1 < tail.len() {
                assert(tail[k - 1] == s[k]);
            }
        }
        lemma_insert_sorted_at(e, tail, k - 1);
        assert(insert_sorted(e, s) == seq![s[0]] + insert_sorted(e, tail));
        assert(seq![s[0]] + (tail.subrange(0, k - 1) + seq![e] + tail.skip(k - 1)) =~= s.subrange(
            0,
            k,
        ) + seq![e] + s.skip(k));
    }
}

/// Inserts an entry into an already sorted vector at its stable position.
fn insert_entry(e: RawEntry, sorted: Vec<RawEntry>) -> (r: Vec<RawEntry>)
    ensures
        r@ == insert_sorted(e, sorted@),
{
    let mut s = sorted;
    let mut k: usize = 0;
    loop
        invariant
            s@ == sorted@,
            k <= s@.len(),
            forall|j: int| 0 <= j < k ==> !entry_le(e, #[trigger] sorted@[j]),
        ensures
            s@ == sorted@,
            k <= s@.len(),
            forall|j: int| 0 <= j < k ==> !entry_le(e, #[trigger] sorted@[j]),
            k < s@.len() ==> entry_le(e, sorted@[k as int]),
        decreases s@.len() - k,
    {
        if k == s.len() {
            break;
        }
        if entry_le_exec(&e, &s[k]) {
            break;
        }
        k = k + 1;
    }
    proof {
        lemma_insert_sorted_at(e, sorted@, k as int);
    }
    s.insert(k, e);
    proof {
        assert(s@ =~= sorted@.subrange(0, k as int) + seq![e] + sorted@.skip(k as int));
    }
    s
}

/// Sorts one level of entries: folders first, then ascending name bytes,
/// equal keys keeping their enumeration order.
fn sort_entries(entries: Vec<RawEntry>) -> (r: Vec<RawEntry>)
    ensures
        r@ == sort_entries_spec(entries@),
{
    let mut rest = entries;
    let mut r: Vec<RawEntry> = Vec::new();
    proof {
        assert(rest@ == entries@.take(rest@.len() as int));
        assert(entries@.skip(entries@.len() as int) =~= Seq::<RawEntry>::empty());
    }
    while rest.len() > 0
        invariant
            rest@.len() <= entries@.len(),
            rest@ == entries@.take(rest@.len() as int),
            r@ == sort_entries_spec(entries@.skip(rest@.len() as int)),
        decreases rest@.len(),
    {
        let ghost prev = rest@;
        let ghost n = prev.len() as int;
        let e = rest.pop().unwrap();
        proof {
            assert(prev == entries@.take(n));
            assert(entries@.take(n)[n - 1] == entries@[n - 1]);
            assert(e == entries@[n - 1]);
            assert(rest@ == prev.drop_last());
            assert(prev.drop_last() =~= entries@.take(n - 1));
            let suffix = entries@.skip(n - 1);
            assert(suffix[0] == entries@[n - 1]);
            assert(suffix.drop_first() =~= entries@.skip(n));
            assert(sort_entries_spec(suffix) == insert_sorted(
                e,
                sort_entries_spec(entries@.skip(n)),
            ));
        }
        r = insert_entry(e, r);
    }
    proof {
        assert(entries@.skip(0) =~= entries@);
    }
    r
}

/// Builds the ordered, depth-limited tree of one directory level. At each
/// level the entries are sorted folders-first then by name bytes; an entry's
/// children are built exactly when it is a directory and the level is within
/// the depth budget.
pub fn build_file_tree(entries: Vec<RawEntry>, depth: usize, max_depth: usize) -> (r: Vec<FileItem>)
    ensures
        tree_matches(entries@, r@, depth as nat, max_depth as nat),
    decreases max_depth - depth,
{
    if depth > max_depth {
        return Vec::new();
    }
    let sorted = sort_entries(entries);
    let ghost sorted_seq = sorted@;
    let mut rest = sorted;
    let mut items: Vec<FileItem> = Vec::new();
    proof {
        assert(rest@ =~= sorted_seq.skip(0));
    }
    while rest.len() > 0
        invariant
            depth <= max_depth,
            items@.len() + rest@.len() == sorted_seq.len(),
            rest@ == sorted_seq.skip(items@.len() as int),
            forall|i: int|
                0 <= i < items@.len() ==> entry_matches(
                    sorted_seq[i],
                    #[trigger] items@[i],
                    depth as nat,
                    max_depth as nat,
                ),
        decreases rest@.len(),
    {
        let ghost k = items@.len() as int;
        let e = rest.remove(0);
        proof {
            assert(e == sorted_seq[k]);
            assert(sorted_seq.skip(k).drop_first() =~= sorted_seq.skip(k + 1));
            assert(rest@ =~= sorted_seq.skip(k + 1));
        }
        let RawEntry { name, path, node } = e;
        let item = match node {
            RawNode::File => FileItem { name, path, kind: ItemKind::File, children: None },
            RawNode::Dir(sub) => {
                if depth < max_depth {
                    let kids = build_file_tree(sub, depth + 1, max_depth);
                    FileItem { name, path, kind: ItemKind::Folder, children: Some(kids) }
                } else {
                    FileItem { name, path, kind: ItemKind::Folder, children: None }
                }
            },
        };
        proof {
            assert(entry_matches(sorted_seq[k], item, depth as nat, max_depth as nat));
        }
        items.push(item);
    }
    proof {
        lemma_items_match_from_pointwise(sorted_seq, items@, depth as nat, max_depth as nat);
    }
    items
}

/// What the external open-folder operation reports: the built tree and the
/// root path on success, an error when the root does not exist.
pub struct OpenModFolderResult {
    pub success: bool,
    pub tree: Option<Vec<FileItem>>,
    pub root_path: Option<String>,
    pub error: Option<String>,
}

/// Builds the open-folder report. The caller states whether the root path
/// exists as a directory and hands in its enumerated entries; a missing
/// root reports an error and no tree, otherwise the tree is built with the
/// default depth budget.
pub fn open_mod_folder_result(exists: bool, root_path: String, entries: Vec<RawEntry>) -> (r:
    OpenModFolderResult)
    ensures
        r.success == exists,
        !exists ==> r.tree is None && r.root_path is None && (r.error matches Some(m) && m@
            == "Folder does not exist"@),
        exists ==> r.error is None && (r.root_path matches Some(p) && p@ == root_path@) && (
        r.tree matches Some(t) && tree_matches(entries@, t@, 0, DEFAULT_MAX_DEPTH as nat)),
{
    if !exists {
        OpenModFolderResult {
            success: false,
            tree: None,
            root_path: None,
            error: Some("Folder does not exist".to_owned()),
        }
    } else {
        let tree = build_file_tree(entries, 0, DEFAULT_MAX_DEPTH);
        OpenModFolderResult {
            success: true,
            tree: Some(tree),
            root_path: Some(root_path),
            error: None,
        }
    }
}

} // verus!
