//! Byte order of texts, and the stable sort of items by their path.

use vstd::prelude::*;
use vstd::string::*;

verus! {

/// Byte-wise lexicographic order.
pub open spec fn bytes_le(a: Seq<u8>, b: Seq<u8>) -> bool
    decreases a.len(),
{
    if a.len() == 0 {
        true
    } else if b.len() == 0 {
        false
    } else {
        a[0] < b[0] || (a[0] == b[0] && bytes_le(a.skip(1), b.skip(1)))
    }
}

/// The byte order compares any two sequences.
pub proof fn lemma_bytes_le_total(a: Seq<u8>, b: Seq<u8>)
    ensures
        bytes_le(a, b) || bytes_le(b, a),
    decreases a.len(),
{
    if a.len() > 0 && b.len() > 0 {
        lemma_bytes_le_total(a.skip(1), b.skip(1));
    }
}

/// The byte order is transitive.
pub proof fn lemma_bytes_le_transitive(a: Seq<u8>, b: Seq<u8>, c: Seq<u8>)
    requires
        bytes_le(a, b),
        bytes_le(b, c),
    ensures
        bytes_le(a, c),
    decreases a.len(),
{
    if a.len() > 0 && a[0] == b[0] && b[0] == c[0] {
        lemma_bytes_le_transitive(a.skip(1), b.skip(1), c.skip(1));
    }
}

/// Two sequences that precede each other are the same.
pub proof fn lemma_bytes_le_antisymmetric(a: Seq<u8>, b: Seq<u8>)
    requires
        bytes_le(a, b),
        bytes_le(b, a),
    ensures
        a == b,
    decreases a.len(),
{
    if a.len() > 0 {
        lemma_bytes_le_antisymmetric(a.skip(1), b.skip(1));
        assert(a =~= seq![a[0]] + a.skip(1));
        assert(b =~= seq![b[0]] + b.skip(1));
    } else {
        assert(a =~= b);
    }
}

/// Whether `a` precedes or equals `b` in byte order.
pub fn text_le(a: &str, b: &str) -> (r: bool)
    ensures
        r == bytes_le(a.spec_bytes(), b.spec_bytes()),
{
    let x = a.as_bytes();
    let y = b.as_bytes();
    let mut i: usize = 0;
    assert(x@.skip(0) =~= x@);
    assert(y@.skip(0) =~= y@);
    while i < x.len()
        invariant
            i <= x@.len(),
            i <= y@.len(),
            x@ == a.spec_bytes(),
            y@ == b.spec_bytes(),
            bytes_le(x@, y@) == bytes_le(x@.skip(i as int), y@.skip(i as int)),
        decreases x@.len() - i,
    {
        if i >= y.len() {
            return false;
        }
        if x[i] != y[i] {
            return x[i] < y[i];
        }
        assert(x@.skip(i as int).skip(1) =~= x@.skip(i + 1));
        assert(y@.skip(i as int).skip(1) =~= y@.skip(i + 1));
        i = i + 1;
    }
    true
}

/// An item that is ordered by the path it belongs to.
pub trait HasPath: Sized {
    /// The path that orders the item.
    spec fn path_key(&self) -> Seq<char>;

    /// The path that orders the item.
    fn path_text(&self) -> (path: &str)
        ensures
            path@ == self.path_key(),
    ;
}

/// Whether one item's path precedes or equals another's.
pub open spec fn path_le<T: HasPath>(a: T, b: T) -> bool {
    bytes_le(vstd::utf8::encode_utf8(a.path_key()), vstd::utf8::encode_utf8(b.path_key()))
}

/// Whether the items stand in the order of their paths.
pub open spec fn sorted_by_path<T: HasPath>(items: Seq<T>) -> bool {
    forall|i: int, j: int|
        0 <= i <= j < items.len() ==> path_le(#[trigger] items[i], #[trigger] items[j])
}

/// Picks the items with a given path.
pub open spec fn on_path<T: HasPath>(path: Seq<char>) -> spec_fn(T) -> bool {
    |item: T| item.path_key() == path
}

/// The items with a given path, in order.
pub open spec fn with_path<T: HasPath>(items: Seq<T>, path: Seq<char>) -> Seq<T> {
    items.filter(on_path(path))
}

/// Whether `out` holds the items of `input` in the order of their paths, those
/// of one path in the order in which they came.
pub open spec fn is_stable_sort<T: HasPath>(out: Seq<T>, input: Seq<T>) -> bool {
    &&& sorted_by_path(out)
    &&& out.len() == input.len()
    &&& out.to_multiset() == input.to_multiset()
    &&& forall|path: Seq<char>| #[trigger] with_path(out, path) == with_path(input, path)
}

proof fn lemma_path_le_reflexive<T: HasPath>(a: T)
    ensures
        path_le(a, a),
{
    let k = vstd::utf8::encode_utf8(a.path_key());
    lemma_bytes_le_total(k, k);
}

pub(crate) proof fn lemma_filter_none<T>(items: Seq<T>, keep: spec_fn(T) -> bool)
    requires
        forall|k: int| 0 <= k < items.len() ==> !keep(#[trigger] items[k]),
    ensures
        items.filter(keep) == Seq::<T>::empty(),
    decreases items.len(),
{
    reveal(Seq::filter);
    if items.len() > 0 {
        lemma_filter_none(items.drop_last(), keep);
    }
}

/// Putting an item behind all that do not come after it keeps the order, and
/// puts it last among the items of its path.
proof fn lemma_insert_sorted<T: HasPath>(items: Seq<T>, pos: int, item: T)
    requires
        sorted_by_path(items),
        0 <= pos <= items.len(),
        forall|k: int| 0 <= k < pos ==> path_le(#[trigger] items[k], item),
        forall|k: int| pos <= k < items.len() ==> !path_le(#[trigger] items[k], item),
    ensures
        sorted_by_path(items.insert(pos, item)),
        forall|path: Seq<char>| #[trigger]
            with_path(items.insert(pos, item), path) == with_path(items.push(item), path),
{
    let out = items.insert(pos, item);
    assert forall|i: int, j: int| 0 <= i <= j < out.len() implies path_le(
        #[trigger] out[i],
        #[trigger] out[j],
    ) by {
        lemma_path_le_reflexive(item);
        if i < pos && j == pos {
            assert(path_le(items[i], item));
        } else if i == pos && j > pos {
            let later = items[j - 1];
            assert(!path_le(later, item));
            lemma_bytes_le_total(
                vstd::utf8::encode_utf8(later.path_key()),
                vstd::utf8::encode_utf8(item.path_key()),
            );
        } else if i != pos && j != pos {
            let a = if i < pos {
                i
            } else {
                i - 1
            };
            let b = if j < pos {
                j
            } else {
                j - 1
            };
            assert(path_le(items[a], items[b]));
        }
    }
    assert forall|path: Seq<char>| #[trigger]
        with_path(out, path) == with_path(items.push(item), path) by {
        let keep = on_path::<T>(path);
        let head = items.take(pos);
        let tail = items.skip(pos);
        assert(out =~= (head + seq![item]) + tail);
        assert(items.push(item) =~= (head + tail) + seq![item]);
        Seq::<T>::filter_distributes_over_add(head + seq![item], tail, keep);
        Seq::<T>::filter_distributes_over_add(head, seq![item], keep);
        Seq::<T>::filter_distributes_over_add(head + tail, seq![item], keep);
        Seq::<T>::filter_distributes_over_add(head, tail, keep);
        if path == item.path_key() {
            assert forall|k: int| 0 <= k < tail.len() implies !keep(#[trigger] tail[k]) by {
                assert(!path_le(items[pos + k], item));
                lemma_path_le_reflexive(item);
            }
            lemma_filter_none(tail, keep);
            assert(head.filter(keep) + seq![item].filter(keep) + tail.filter(keep)
                =~= head.filter(keep) + tail.filter(keep) + seq![item].filter(keep));
        } else {
            lemma_filter_none(seq![item], keep);
            assert(head.filter(keep) + seq![item].filter(keep) + tail.filter(keep)
                =~= head.filter(keep) + tail.filter(keep) + seq![item].filter(keep));
        }
    }
}

proof fn lemma_insert_multiset<T>(items: Seq<T>, pos: int, item: T)
    requires
        0 <= pos <= items.len(),
    ensures
        items.insert(pos, item).to_multiset() == items.to_multiset().insert(item),
{
    broadcast use vstd::seq_lib::group_to_multiset_ensures;

    let out = items.insert(pos, item);
    vstd::seq_lib::to_multiset_remove(out, pos);
    assert(out.remove(pos) =~= items);
    assert(out[pos] == item);
    assert(out.contains(item));
    assert(out.to_multiset() =~= items.to_multiset().insert(item));
}

/// The number of items, from the front of a sorted list, that do not come after
/// `item`.
fn upper_bound<T: HasPath>(items: &Vec<T>, item: &T) -> (pos: usize)
    requires
        sorted_by_path(items@),
    ensures
        pos <= items@.len(),
        forall|k: int| 0 <= k < pos ==> path_le(#[trigger] items@[k], *item),
        forall|k: int| pos <= k < items@.len() ==> !path_le(#[trigger] items@[k], *item),
{
    let mut low: usize = 0;
    let mut high: usize = items.len();
    while low < high
        invariant
            sorted_by_path(items@),
            low <= high <= items@.len(),
            forall|k: int| 0 <= k < low ==> path_le(#[trigger] items@[k], *item),
            forall|k: int| high <= k < items@.len() ==> !path_le(#[trigger] items@[k], *item),
        decreases high - low,
    {
        let mid: usize = low + (high - low) / 2;
        let before = text_le(items[mid].path_text(), item.path_text());
        if before {
            assert forall|k: int| 0 <= k < mid + 1 implies path_le(#[trigger] items@[k], *item) by {
                assert(path_le(items@[k], items@[mid as int]));
                lemma_bytes_le_transitive(
                    vstd::utf8::encode_utf8(items@[k].path_key()),
                    vstd::utf8::encode_utf8(items@[mid as int].path_key()),
                    vstd::utf8::encode_utf8(item.path_key()),
                );
            }
            low = mid + 1;
        } else {
            assert forall|k: int| mid <= k < items@.len() implies !path_le(
                #[trigger] items@[k],
                *item,
            ) by {
                assert(path_le(items@[mid as int], items@[k]));
                if path_le(items@[k], *item) {
                    lemma_bytes_le_transitive(
                        vstd::utf8::encode_utf8(items@[mid as int].path_key()),
                        vstd::utf8::encode_utf8(items@[k].path_key()),
                        vstd::utf8::encode_utf8(item.path_key()),
                    );
                }
            }
            high = mid;
        }
    }
    low
}

/// Sorts items by path; items of one path keep their order.
pub fn sort_by_path<T: HasPath>(items: Vec<T>) -> (out: Vec<T>)
    ensures
        is_stable_sort(out@, items@),
{
    let ghost input = items@;
    let mut out: Vec<T> = Vec::new();
    assert(out@ =~= input.take(0));
    for item in it: items
        invariant
            it.seq() == input,
            is_stable_sort(out@, input.take(it.index())),
    {
        let ghost before = out@;
        let ghost done = input.take(it.index());
        let pos = upper_bound(&out, &item);
        proof {
            lemma_insert_sorted(before, pos as int, item);
            let next = input.take(it.index() + 1);
            assert(next =~= done.push(item));
            lemma_insert_multiset(before, pos as int, item);
            vstd::seq_lib::to_multiset_build(done, item);
            assert forall|path: Seq<char>| #[trigger]
                with_path(before.insert(pos as int, item), path) == with_path(next, path) by {
                let keep = on_path::<T>(path);
                assert(with_path(before, path) == with_path(done, path));
                assert(before.push(item) =~= before + seq![item]);
                assert(done.push(item) =~= done + seq![item]);
                Seq::<T>::filter_distributes_over_add(before, seq![item], keep);
                Seq::<T>::filter_distributes_over_add(done, seq![item], keep);
                assert(with_path(before.insert(pos as int, item), path) == with_path(
                    before.push(item),
                    path,
                ));
            }
        }
        out.insert(pos, item);
    }
    assert(input.take(input.len() as int) =~= input);
    out
}

/// Sorting neither loses nor invents an item.
pub proof fn lemma_stable_sort_keeps_items<T: HasPath>(out: Seq<T>, input: Seq<T>, item: T)
    requires
        is_stable_sort(out, input),
    ensures
        out.contains(item) <==> input.contains(item),
{
    out.to_multiset_ensures();
    input.to_multiset_ensures();
    assert(out.to_multiset().count(item) == input.to_multiset().count(item));
}

/// Picking items finds as many as two where two are picked.
proof fn lemma_two_kept<T>(items: Seq<T>, keep: spec_fn(T) -> bool, a: int, b: int)
    requires
        0 <= a < b < items.len(),
        keep(items[a]),
        keep(items[b]),
    ensures
        items.filter(keep).len() >= 2,
{
    let head = items.take(b);
    let tail = items.skip(b);
    assert(items =~= head + tail);
    Seq::filter_distributes_over_add(head, tail, keep);
    head.lemma_filter_contains(keep, a);
    tail.lemma_filter_contains(keep, 0);
}

/// Items of different paths still have different paths once they are sorted.
pub proof fn lemma_stable_sort_keeps_paths_apart<T: HasPath>(
    out: Seq<T>,
    input: Seq<T>,
    a: int,
    b: int,
)
    requires
        is_stable_sort(out, input),
        forall|i: int, j: int|
            0 <= i < j < input.len() ==> (#[trigger] input[i]).path_key() != (
            #[trigger] input[j]).path_key(),
        0 <= a < b < out.len(),
    ensures
        out[a].path_key() != out[b].path_key(),
{
    if out[a].path_key() == out[b].path_key() {
        let path = out[a].path_key();
        let keep = on_path::<T>(path);
        lemma_two_kept(out, keep, a, b);
        assert(with_path(out, path) == with_path(input, path));
        lemma_stable_sort_keeps_items(out, input, out[a]);
        assert(out.contains(out[a]));
        let k = choose|k: int| 0 <= k < input.len() && input[k] == out[a];
        let head = input.take(k);
        let tail = input.skip(k + 1);
        assert(input =~= head + seq![input[k]] + tail);
        Seq::filter_distributes_over_add(head + seq![input[k]], tail, keep);
        Seq::filter_distributes_over_add(head, seq![input[k]], keep);
        lemma_filter_none(head, keep);
        lemma_filter_none(tail, keep);
        seq![input[k]].lemma_filter_len(keep);
    }
}

/// The order is that of dictionaries: a sequence precedes another exactly where it
/// starts it, or has the lesser byte where they first differ.
pub proof fn lemma_first_difference_decides(a: Seq<u8>, b: Seq<u8>, i: int)
    requires
        0 <= i <= a.len(),
        i <= b.len(),
        a.take(i) == b.take(i),
    ensures
        i == a.len() ==> bytes_le(a, b),
        i < a.len() && i == b.len() ==> !bytes_le(a, b),
        i < a.len() && i < b.len() && a[i] != b[i] ==> (bytes_le(a, b) <==> a[i] < b[i]),
    decreases i,
{
    if i > 0 {
        assert(a[0] == a.take(i)[0]);
        assert(b[0] == b.take(i)[0]);
        assert(a.skip(1).take(i - 1) =~= a.take(i).skip(1));
        assert(b.skip(1).take(i - 1) =~= b.take(i).skip(1));
        lemma_first_difference_decides(a.skip(1), b.skip(1), i - 1);
    }
}

} // verus!
