//! Stable ordering by a number and a text.

use vstd::prelude::*;

verus! {

/// What an item is ordered by: first the number, smallest first, then the
/// text.
#[derive(Debug)]
pub struct OrderKey {
    pub number: i64,
    pub text: Vec<char>,
}

/// The view of an [`OrderKey`].
pub struct OrderKeyView {
    pub number: i64,
    pub text: Seq<char>,
}

impl View for OrderKey {
    type V = OrderKeyView;

    open spec fn view(&self) -> OrderKeyView {
        OrderKeyView { number: self.number, text: self.text@ }
    }
}

/// Which text comes first among items with the same number.
#[derive(Debug, Clone, Copy, PartialEq, Eq, Structural)]
pub enum TextOrder {
    Ascending,
    Descending,
}

/// The views of a list of keys.
pub open spec fn key_views(keys: Seq<OrderKey>) -> Seq<OrderKeyView> {
    keys.map_values(|key: OrderKey| key@)
}

/// `left` comes before `right` in the order of a dictionary over code points.
pub open spec fn text_before(left: Seq<char>, right: Seq<char>) -> bool
    decreases left.len(),
{
    if right.len() == 0 {
        false
    } else if left.len() == 0 {
        true
    } else if left.first() == right.first() {
        text_before(left.drop_first(), right.drop_first())
    } else {
        left.first() < right.first()
    }
}

/// `left` is ordered strictly before `right`.
pub open spec fn key_before(left: OrderKeyView, right: OrderKeyView, texts: TextOrder) -> bool {
    ||| left.number < right.number
    ||| left.number == right.number && match texts {
        TextOrder::Ascending => text_before(left.text, right.text),
        TextOrder::Descending => text_before(right.text, left.text),
    }
}

/// Position `i` is ordered before position `j`: its key comes first, or the
/// keys are level and it stood first.
pub open spec fn position_before(
    keys: Seq<OrderKeyView>,
    i: int,
    j: int,
    texts: TextOrder,
) -> bool {
    ||| key_before(keys[i], keys[j], texts)
    ||| !key_before(keys[j], keys[i], texts) && i < j
}

/// `order` lists the positions of `keys` in order, level keys as they stood.
pub open spec fn is_order(keys: Seq<OrderKeyView>, texts: TextOrder, order: Seq<usize>) -> bool {
    &&& order.len() == keys.len()
    &&& forall|i: int| 0 <= i < order.len() ==> (#[trigger] order[i]) < keys.len()
    &&& forall|i: int, j: int|
        0 <= i < j < order.len() ==> #[trigger] position_before(
            keys,
            order[i] as int,
            order[j] as int,
            texts,
        )
}

/// `items` rearranged by `order`.
pub open spec fn arranged<T>(items: Seq<T>, order: Seq<usize>) -> Seq<T> {
    Seq::new(order.len(), |i: int| items[order[i] as int])
}

/// Texts are totally ordered.
pub proof fn text_order_is_total(a: Seq<char>, b: Seq<char>, c: Seq<char>)
    ensures
        !(text_before(a, b) && text_before(b, a)),
        text_before(a, b) || text_before(b, a) || a == b,
        text_before(a, b) && text_before(b, c) ==> text_before(a, c),
    decreases a.len(),
{
    if a.len() == 0 {
        if b.len() == 0 {
            assert(a =~= b);
        }
    } else if b.len() > 0 {
        if c.len() > 0 {
            text_order_is_total(a.drop_first(), b.drop_first(), c.drop_first());
        } else {
            text_order_is_total(a.drop_first(), b.drop_first(), c);
        }
        if a.first() == b.first() && a.drop_first() == b.drop_first() {
            assert(a =~= seq![a.first()] + a.drop_first());
            assert(b =~= seq![b.first()] + b.drop_first());
        }
    }
}

/// The order of keys is a strict one in which level keys are equal.
pub proof fn key_order_is_total(a: OrderKeyView, b: OrderKeyView, c: OrderKeyView, texts: TextOrder)
    ensures
        !(key_before(a, b, texts) && key_before(b, a, texts)),
        key_before(a, b, texts) || key_before(b, a, texts) || a == b,
        key_before(a, b, texts) && key_before(b, c, texts) ==> key_before(a, c, texts),
{
    text_order_is_total(a.text, b.text, c.text);
    text_order_is_total(b.text, a.text, c.text);
    text_order_is_total(c.text, b.text, a.text);
}

proof fn lemma_position_before_transitive(
    keys: Seq<OrderKeyView>,
    i: int,
    j: int,
    k: int,
    texts: TextOrder,
)
    requires
        position_before(keys, i, j, texts),
        position_before(keys, j, k, texts),
    ensures
        position_before(keys, i, k, texts),
{
    key_order_is_total(keys[i], keys[j], keys[k], texts);
    key_order_is_total(keys[j], keys[k], keys[i], texts);
    key_order_is_total(keys[k], keys[i], keys[j], texts);
}

/// An order is determined by the keys: there is only one.
pub proof fn order_is_unique(
    keys: Seq<OrderKeyView>,
    texts: TextOrder,
    left: Seq<usize>,
    right: Seq<usize>,
)
    requires
        is_order(keys, texts, left),
        is_order(keys, texts, right),
    ensures
        left == right,
{
    lemma_order_is_unique(keys, texts, left, right, 0);
    assert(left =~= right);
}

/// Every position has a place in an order.
pub proof fn order_covers(keys: Seq<OrderKeyView>, texts: TextOrder, order: Seq<usize>, at: int)
    requires
        is_order(keys, texts, order),
        0 <= at < keys.len(),
    ensures
        exists|i: int| 0 <= i < order.len() && #[trigger] order[i] == at,
{
    assert forall|i: int, j: int| 0 <= i < j < order.len() implies order[i] != order[j] by {
        assert(position_before(keys, order[i] as int, order[j] as int, texts));
        key_order_is_total(keys[order[i] as int], keys[order[j] as int], keys[order[i] as int], texts);
    }
    if forall|i: int| 0 <= i < order.len() ==> #[trigger] order[i] != at {
        let longer = order.map_values(|n: usize| n as int).push(at);
        assert forall|i: int, j: int|
            0 <= i < longer.len() && 0 <= j < longer.len() && i != j implies longer[i]
            != longer[j] by {
            if i < order.len() && j < order.len() {
                assert(order[i] != order[j]);
            } else if i < order.len() {
                assert(order[i] != at);
            } else {
                assert(order[j] != at);
            }
        }
        assert forall|i: int| 0 <= i < longer.len() implies 0 <= #[trigger] longer[i]
            < keys.len() by {
            if i < order.len() {
                assert(order[i] < keys.len());
            }
        }
        lemma_distinct_below(longer, keys.len());
    }
}

/// Distinct numbers below `bound` are at most `bound` many.
proof fn lemma_distinct_below(numbers: Seq<int>, bound: nat)
    requires
        numbers.no_duplicates(),
        forall|i: int| 0 <= i < numbers.len() ==> 0 <= #[trigger] numbers[i] < bound,
    ensures
        numbers.len() <= bound,
    decreases bound,
{
    if numbers.len() > 0 {
        assert(0 <= numbers[0] < bound);
        let top = bound - 1;
        if numbers.contains(top) {
            let i = choose|i: int| 0 <= i < numbers.len() && numbers[i] == top;
            lemma_distinct_below(numbers.remove(i), top as nat);
        } else {
            assert forall|i: int| 0 <= i < numbers.len() implies 0 <= #[trigger] numbers[i]
                < top by {
                assert(numbers.contains(numbers[i]));
            }
            lemma_distinct_below(numbers, top as nat);
        }
    }
}

proof fn lemma_order_is_unique(
    keys: Seq<OrderKeyView>,
    texts: TextOrder,
    left: Seq<usize>,
    right: Seq<usize>,
    from: int,
)
    requires
        is_order(keys, texts, left),
        is_order(keys, texts, right),
        0 <= from <= left.len(),
        forall|i: int| 0 <= i < from ==> left[i] == right[i],
    ensures
        forall|i: int| 0 <= i < left.len() ==> left[i] == right[i],
    decreases left.len() - from,
{
    if from < left.len() {
        if left[from] != right[from] {
            order_covers(keys, texts, right, left[from] as int);
            order_covers(keys, texts, left, right[from] as int);
            let i = choose|i: int| 0 <= i < right.len() && right[i] == left[from];
            let j = choose|j: int| 0 <= j < left.len() && left[j] == right[from];
            let a = left[from] as int;
            let b = right[from] as int;
            if i < from {
                assert(left[i] == left[from]);
                assert(position_before(keys, left[i] as int, left[from] as int, texts));
                key_order_is_total(keys[a], keys[a], keys[a], texts);
            }
            if j < from {
                assert(right[j] == right[from]);
                assert(position_before(keys, right[j] as int, right[from] as int, texts));
                key_order_is_total(keys[b], keys[b], keys[b], texts);
            }
            assert(position_before(keys, right[from] as int, right[i] as int, texts));
            assert(position_before(keys, left[from] as int, left[j] as int, texts));
            key_order_is_total(keys[a], keys[b], keys[a], texts);
        }
        lemma_order_is_unique(keys, texts, left, right, from + 1);
    }
}

fn is_text_before(left: &Vec<char>, right: &Vec<char>) -> (answer: bool)
    ensures
        answer == text_before(left@, right@),
{
    let mut i: usize = 0;
    assert(left@.skip(0) =~= left@);
    assert(right@.skip(0) =~= right@);
    while i < left.len() && i < right.len()
        invariant
            i <= left.len(),
            i <= right.len(),
            text_before(left@, right@) == text_before(left@.skip(i as int), right@.skip(i as int)),
        decreases left.len() - i,
    {
        assert(left@.skip(i as int).drop_first() =~= left@.skip(i + 1));
        assert(right@.skip(i as int).drop_first() =~= right@.skip(i + 1));
        if left[i] != right[i] {
            return left[i] < right[i];
        }
        i = i + 1;
    }
    i < right.len()
}

fn is_key_before(left: &OrderKey, right: &OrderKey, texts: TextOrder) -> (answer: bool)
    ensures
        answer == key_before(left@, right@, texts),
{
    if left.number != right.number {
        return left.number < right.number;
    }
    match texts {
        TextOrder::Ascending => is_text_before(&left.text, &right.text),
        TextOrder::Descending => is_text_before(&right.text, &left.text),
    }
}

/// The positions of `keys` in order, level keys as they stood.
pub fn order_of(keys: &Vec<OrderKey>, texts: TextOrder) -> (order: Vec<usize>)
    ensures
        is_order(key_views(keys@), texts, order@),
{
    let ghost views = key_views(keys@);
    let mut order: Vec<usize> = Vec::new();
    for k in 0..keys.len()
        invariant
            views == key_views(keys@),
            order@.len() == k,
            forall|i: int| 0 <= i < order@.len() ==> (#[trigger] order@[i]) < k,
            forall|i: int, j: int|
                0 <= i < j < order@.len() ==> #[trigger] position_before(
                    views,
                    order@[i] as int,
                    order@[j] as int,
                    texts,
                ),
    {
        let mut at: usize = order.len();
        while at > 0 && is_key_before(&keys[k], &keys[order[at - 1]], texts)
            invariant
                at <= order@.len(),
                k < keys@.len(),
                views == key_views(keys@),
                forall|i: int| 0 <= i < order@.len() ==> (#[trigger] order@[i]) < k,
                forall|i: int|
                    at <= i < order@.len() ==> key_before(
                        views[k as int],
                        views[#[trigger] order@[i] as int],
                        texts,
                    ),
            decreases at,
        {
            at = at - 1;
        }
        let ghost before = order@;
        proof {
            assert forall|i: int| 0 <= i < at implies #[trigger] position_before(
                views,
                before[i] as int,
                k as int,
                texts,
            ) by {
                assert(position_before(views, before[at - 1] as int, k as int, texts));
                if i < at - 1 {
                    assert(position_before(
                        views,
                        before[i] as int,
                        before[at - 1] as int,
                        texts,
                    ));
                    lemma_position_before_transitive(
                        views,
                        before[i] as int,
                        before[at - 1] as int,
                        k as int,
                        texts,
                    );
                }
            }
        }
        order.insert(at, k);
        proof {
            assert forall|i: int, j: int| 0 <= i < j < order@.len() implies #[trigger] position_before(
                views,
                order@[i] as int,
                order@[j] as int,
                texts,
            ) by {
                let from = if i < at {
                    i
                } else {
                    i - 1
                };
                let to = if j < at {
                    j
                } else {
                    j - 1
                };
                if i == at {
                    assert(order@[j] == before[to]);
                    assert(key_before(views[k as int], views[before[to] as int], texts));
                } else if j == at {
                    assert(order@[i] == before[from]);
                } else {
                    assert(order@[i] == before[from]);
                    assert(order@[j] == before[to]);
                    assert(position_before(views, before[from] as int, before[to] as int, texts));
                }
            }
        }
    }
    order
}

/// Texts stand as in a dictionary: the one that ends first, or has the smaller
/// character where the two first differ, comes first.
pub proof fn text_order_is_lexicographic(left: Seq<char>, right: Seq<char>)
    ensures
        text_before(left, right) <==> exists|k: int|
            {
                &&& 0 <= k < right.len()
                &&& k <= left.len()
                &&& #[trigger] left.take(k) == right.take(k)
                &&& k == left.len() || left[k] < right[k]
            },
    decreases left.len(),
{
    if right.len() > 0 {
        if left.len() == 0 {
            assert(left.take(0) =~= right.take(0));
        } else {
            let (l, r) = (left.drop_first(), right.drop_first());
            text_order_is_lexicographic(l, r);
            if left.first() == right.first() {
                if text_before(l, r) {
                    let k = choose|k: int|
                        {
                            &&& 0 <= k < r.len()
                            &&& k <= l.len()
                            &&& #[trigger] l.take(k) == r.take(k)
                            &&& k == l.len() || l[k] < r[k]
                        };
                    assert forall|i: int| 0 <= i < k + 1 implies left[i] == right[i] by {
                        if i > 0 {
                            assert(l.take(k)[i - 1] == r.take(k)[i - 1]);
                        }
                    }
                    assert(left.take(k + 1) =~= right.take(k + 1));
                }
                if exists|k: int|
                    {
                        &&& 0 <= k < right.len()
                        &&& k <= left.len()
                        &&& #[trigger] left.take(k) == right.take(k)
                        &&& k == left.len() || left[k] < right[k]
                    } {
                    let k = choose|k: int|
                        {
                            &&& 0 <= k < right.len()
                            &&& k <= left.len()
                            &&& #[trigger] left.take(k) == right.take(k)
                            &&& k == left.len() || left[k] < right[k]
                        };
                    assert(k > 0);
                    assert forall|i: int| 0 <= i < k - 1 implies l[i] == r[i] by {
                        assert(left.take(k)[i + 1] == right.take(k)[i + 1]);
                    }
                    assert(l.take(k - 1) =~= r.take(k - 1));
                }
            } else {
                if left.first() < right.first() {
                    assert(left.take(0) =~= right.take(0));
                }
                assert forall|k: int|
                    0 < k < right.len() && k <= left.len() implies #[trigger] left.take(k)
                    != right.take(k) by {
                    assert(left.take(k)[0] == left[0] && right.take(k)[0] == right[0]);
                }
            }
        }
    }
}

/// Items are ordered by their numbers first, the smallest first, and by their
/// texts among equal numbers; equal keys stay as they stood.
pub proof fn order_goes_by_number_then_text(
    keys: Seq<OrderKeyView>,
    texts: TextOrder,
    order: Seq<usize>,
    i: int,
    j: int,
)
    requires
        is_order(keys, texts, order),
        0 <= i < j < order.len(),
    ensures
        ({
            let (a, b) = (order[i] as int, order[j] as int);
            &&& 0 <= a < keys.len()
            &&& 0 <= b < keys.len()
            &&& a != b
            &&& keys[a].number <= keys[b].number
            &&& keys[a].number == keys[b].number && texts == TextOrder::Ascending ==> !text_before(
                keys[b].text,
                keys[a].text,
            )
            &&& keys[a].number == keys[b].number && texts == TextOrder::Descending ==> !text_before(
                keys[a].text,
                keys[b].text,
            )
            &&& keys[a] == keys[b] ==> a < b
        }),
{
    let (a, b) = (order[i] as int, order[j] as int);
    assert(position_before(keys, a, b, texts));
    key_order_is_total(keys[a], keys[b], keys[a], texts);
    text_order_is_total(keys[a].text, keys[b].text, keys[a].text);
}

} // verus!
