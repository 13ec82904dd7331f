//! Alphabetical order: comparing texts character by character, and ranking
//! lines by their keys without disturbing lines whose keys compare equal.

use vstd::prelude::*;

verus! {

/// `a` comes no later than `b` when both are compared from place `i` on,
/// character by character, by code point; a text comes before its extensions.
pub open spec fn le_from(a: Seq<char>, b: Seq<char>, i: int) -> bool
    decreases a.len() - i,
{
    if i >= a.len() {
        true
    } else if i >= b.len() {
        false
    } else if a[i] != b[i] {
        a[i] < b[i]
    } else {
        le_from(a, b, i + 1)
    }
}

/// `a` comes no later than `b` in the order of a dictionary.
pub open spec fn le(a: Seq<char>, b: Seq<char>) -> bool {
    le_from(a, b, 0)
}

/// Of two texts, one comes no later than the other.
pub proof fn lemma_le_total_from(a: Seq<char>, b: Seq<char>, i: int)
    requires
        0 <= i,
    ensures
        le_from(a, b, i) || le_from(b, a, i),
    decreases a.len() - i,
{
    if i < a.len() && i < b.len() && a[i] == b[i] {
        lemma_le_total_from(a, b, i + 1);
    }
}

/// What comes no later than something that comes no later than a third
/// comes no later than the third.
pub proof fn lemma_le_transitive_from(a: Seq<char>, b: Seq<char>, c: Seq<char>, i: int)
    requires
        0 <= i,
        le_from(a, b, i),
        le_from(b, c, i),
    ensures
        le_from(a, c, i),
    decreases a.len() - i,
{
    if i < a.len() && a[i] == b[i] && b[i] == c[i] {
        lemma_le_transitive_from(a, b, c, i + 1);
    }
}

/// Whether `a` comes no later than `b`.
pub fn text_le(a: &Vec<char>, b: &Vec<char>) -> (r: bool)
    ensures
        r == le(a@, b@),
{
    let mut i: usize = 0;
    while i < a.len()
        invariant
            i <= a.len(),
            le(a@, b@) == le_from(a@, b@, i as int),
        decreases a.len() - i,
    {
        if i >= b.len() {
            return false;
        }
        if a[i] != b[i] {
            return a[i] < b[i];
        }
        i = i + 1;
    }
    true
}

/// The place at which a line with `key` joins the ranking `order`, looking
/// from place `j` on: before the first line whose key comes strictly later.
pub open spec fn slot(keys: Seq<Seq<char>>, order: Seq<int>, key: Seq<char>, j: int) -> int
    decreases order.len() - j,
{
    if j >= order.len() {
        order.len() as int
    } else if !le(keys[order[j]], key) {
        j
    } else {
        slot(keys, order, key, j + 1)
    }
}

/// The first `n` lines ranked by key. Each line in turn joins after every
/// line whose key comes no later than its own.
pub open spec fn ranking(keys: Seq<Seq<char>>, n: int) -> Seq<int>
    decreases n,
{
    if n <= 0 {
        Seq::empty()
    } else {
        let before = ranking(keys, n - 1);
        before.insert(slot(keys, before, keys[n - 1], 0), n - 1)
    }
}

/// `order` lists each of the first `n` lines once.
pub open spec fn lists_each_once(order: Seq<int>, n: int) -> bool {
    &&& order.len() == n
    &&& forall|j: int| 0 <= j < order.len() ==> 0 <= #[trigger] order[j] < n
    &&& forall|j: int, k: int| 0 <= j < k < order.len() ==> order[j] != order[k]
}

/// Keys never go down along `order`, and of two lines whose keys compare
/// equal the one that was first stays first.
pub open spec fn in_stable_order(keys: Seq<Seq<char>>, order: Seq<int>) -> bool {
    forall|j: int, k: int|
        0 <= j < k < order.len() ==> le(keys[#[trigger] order[j]], keys[#[trigger] order[k]])
            && (le(keys[order[k]], keys[order[j]]) ==> order[j] < order[k])
}

/// Where `slot` lands: everything before has a key that comes no later,
/// and the line at the slot, if any, has a key that comes strictly later.
proof fn lemma_slot(keys: Seq<Seq<char>>, order: Seq<int>, key: Seq<char>, j: int)
    requires
        0 <= j <= order.len(),
    ensures
        j <= slot(keys, order, key, j) <= order.len(),
        forall|i: int| j <= i < slot(keys, order, key, j) ==> le(keys[#[trigger] order[i]], key),
        slot(keys, order, key, j) < order.len() ==> !le(
            keys[order[slot(keys, order, key, j)]],
            key,
        ),
    decreases order.len() - j,
{
    if j < order.len() && le(keys[order[j]], key) {
        lemma_slot(keys, order, key, j + 1);
    }
}

/// The ranking is the one arrangement of the lines in which keys never go
/// down and equal keys keep their order.
pub proof fn lemma_ranking(keys: Seq<Seq<char>>, n: int)
    requires
        0 <= n <= keys.len(),
    ensures
        lists_each_once(ranking(keys, n), n),
        in_stable_order(keys, ranking(keys, n)),
    decreases n,
{
    if n > 0 {
        lemma_ranking(keys, n - 1);
        let before = ranking(keys, n - 1);
        let key = keys[n - 1];
        let s = slot(keys, before, key, 0);
        lemma_slot(keys, before, key, 0);
        let after = ranking(keys, n);
        assert(after == before.insert(s, n - 1));
        assert forall|j: int| 0 <= j < after.len() implies 0 <= #[trigger] after[j] < n by {
            if j < s {
                assert(after[j] == before[j]);
            } else if j > s {
                assert(after[j] == before[j - 1]);
            }
        }
        assert forall|j: int, k: int| 0 <= j < k < after.len() implies after[j] != after[k] by {
            if j != s && k != s {
                let jb = if j < s { j } else { j - 1 };
                let kb = if k < s { k } else { k - 1 };
                assert(after[j] == before[jb]);
                assert(after[k] == before[kb]);
            } else if j == s {
                assert(after[k] == before[k - 1]);
            } else {
                assert(after[j] == before[j]);
            }
        }
        assert forall|j: int, k: int| 0 <= j < k < after.len() implies le(
            keys[#[trigger] after[j]],
            keys[#[trigger] after[k]],
        ) && (le(keys[after[k]], keys[after[j]]) ==> after[j] < after[k]) by {
            if j != s && k != s {
                let jb = if j < s { j } else { j - 1 };
                let kb = if k < s { k } else { k - 1 };
                assert(after[j] == before[jb]);
                assert(after[k] == before[kb]);
            } else if k == s {
                assert(after[j] == before[j]);
                assert(le(keys[before[j]], key));
            } else {
                // j == s: the line that joined stands before `before[k - 1]`
                assert(after[k] == before[k - 1]);
                let at = keys[before[s]];
                let later = keys[before[k - 1]];
                lemma_le_total_from(at, key, 0);
                if k - 1 > s {
                    assert(le(keys[before[s]], keys[before[k - 1]]));
                    lemma_le_transitive_from(key, at, later, 0);
                    if le(later, key) {
                        lemma_le_transitive_from(at, later, key, 0);
                    }
                }
            }
        }
    }
}

/// Two arrangements of the same lines in which keys never go down and equal
/// keys keep their order are the same arrangement.
pub proof fn lemma_stable_order_is_unique(keys: Seq<Seq<char>>, a: Seq<int>, b: Seq<int>, n: int)
    requires
        0 <= n <= keys.len(),
        lists_each_once(a, n),
        lists_each_once(b, n),
        in_stable_order(keys, a),
        in_stable_order(keys, b),
    ensures
        a == b,
    decreases n,
{
    if n == 0 {
        assert(a =~= b);
    } else {
        // The line that ranks `n - 1` can be taken out of both.
        lemma_holds_each(a, n, n - 1);
        lemma_holds_each(b, n, n - 1);
        let ia = choose|i: int| 0 <= i < a.len() && a[i] == n - 1;
        let ib = choose|i: int| 0 <= i < b.len() && b[i] == n - 1;
        let ra = a.remove(ia);
        let rb = b.remove(ib);
        lemma_remove_keeps(keys, a, n, ia);
        lemma_remove_keeps(keys, b, n, ib);
        lemma_stable_order_is_unique(keys, ra, rb, n - 1);
        // Both stand where the slot is.
        lemma_stands_at_slot(keys, a, n, ia);
        lemma_stands_at_slot(keys, b, n, ib);
        assert(a =~= ra.insert(ia, n - 1));
        assert(b =~= rb.insert(ib, n - 1));
    }
}

/// An arrangement that lists each of `n` lines once holds line `x`.
proof fn lemma_holds_each(order: Seq<int>, n: int, x: int)
    requires
        lists_each_once(order, n),
        0 <= x < n,
    ensures
        exists|i: int| 0 <= i < order.len() && order[i] == x,
{
    // Counting argument: the lines other than `x` are too few to fill `order`.
    if forall|i: int| 0 <= i < order.len() ==> order[i] != x {
        let shifted = Seq::new(
            order.len(),
            |i: int|
                if order[i] > x {
                    order[i] - 1
                } else {
                    order[i]
                },
        );
        assert forall|j: int, k: int| 0 <= j < k < shifted.len() implies shifted[j]
            != shifted[k] by {
            assert(order[j] != order[k]);
            assert(order[j] != x && order[k] != x);
        }
        assert forall|j: int| 0 <= j < shifted.len() implies 0 <= #[trigger] shifted[j] < n
            - 1 by {
            assert(0 <= order[j] < n);
            assert(order[j] != x);
        }
        lemma_distinct_are_few(shifted, n - 1);
    }
}

/// Values below `n` that all differ are at most `n`.
proof fn lemma_distinct_are_few(values: Seq<int>, n: int)
    requires
        n >= 0,
        forall|j: int| 0 <= j < values.len() ==> 0 <= #[trigger] values[j] < n,
        forall|j: int, k: int| 0 <= j < k < values.len() ==> values[j] != values[k],
    ensures
        values.len() <= n,
    decreases n,
{
    if values.len() == 0 {
    } else if n == 0 {
        assert(0 <= #[trigger] values[0] < n);
    } else {
        // Drop the place that holds `n - 1`, if any, or else the last place.
        let at = if exists|i: int| 0 <= i < values.len() && values[i] == n - 1 {
            choose|i: int| 0 <= i < values.len() && values[i] == n - 1
        } else {
            values.len() - 1
        };
        let rest = values.remove(at);
        assert forall|j: int| 0 <= j < rest.len() implies 0 <= #[trigger] rest[j] < n - 1 by {
            let jv = if j < at { j } else { j + 1 };
            assert(rest[j] == values[jv]);
            assert(0 <= values[jv] < n);
            if values[jv] == n - 1 {
                assert(values[at] == n - 1);
                assert(jv != at);
                if jv < at {
                    assert(values[jv] != values[at]);
                } else {
                    assert(values[at] != values[jv]);
                }
            }
        }
        assert forall|j: int, k: int| 0 <= j < k < rest.len() implies rest[j] != rest[k] by {
            let jv = if j < at { j } else { j + 1 };
            let kv = if k < at { k } else { k + 1 };
            assert(rest[j] == values[jv]);
            assert(rest[k] == values[kv]);
        }
        lemma_distinct_are_few(rest, n - 1);
    }
}

/// Taking the last line out of an arrangement leaves an arrangement of the others.
proof fn lemma_remove_keeps(keys: Seq<Seq<char>>, order: Seq<int>, n: int, at: int)
    requires
        n > 0,
        lists_each_once(order, n),
        in_stable_order(keys, order),
        0 <= at < order.len(),
        order[at] == n - 1,
    ensures
        lists_each_once(order.remove(at), n - 1),
        in_stable_order(keys, order.remove(at)),
{
    let rest = order.remove(at);
    assert forall|j: int| 0 <= j < rest.len() implies 0 <= #[trigger] rest[j] < n - 1 by {
        let jv = if j < at { j } else { j + 1 };
        assert(rest[j] == order[jv]);
        assert(0 <= order[jv] < n);
        if jv < at {
            assert(order[jv] != order[at]);
        } else {
            assert(order[at] != order[jv]);
        }
    }
    assert forall|j: int, k: int| 0 <= j < k < rest.len() implies rest[j] != rest[k] by {
        let jv = if j < at { j } else { j + 1 };
        let kv = if k < at { k } else { k + 1 };
        assert(rest[j] == order[jv]);
        assert(rest[k] == order[kv]);
    }
    assert forall|j: int, k: int| 0 <= j < k < rest.len() implies le(
        keys[#[trigger] rest[j]],
        keys[#[trigger] rest[k]],
    ) && (le(keys[rest[k]], keys[rest[j]]) ==> rest[j] < rest[k]) by {
        let jv = if j < at { j } else { j + 1 };
        let kv = if k < at { k } else { k + 1 };
        assert(rest[j] == order[jv]);
        assert(rest[k] == order[kv]);
    }
}

/// In an arrangement, the last line stands where `slot` puts it among the others.
proof fn lemma_stands_at_slot(keys: Seq<Seq<char>>, order: Seq<int>, n: int, at: int)
    requires
        n > 0,
        n <= keys.len(),
        lists_each_once(order, n),
        in_stable_order(keys, order),
        0 <= at < order.len(),
        order[at] == n - 1,
    ensures
        slot(keys, order.remove(at), keys[n - 1], 0) == at,
{
    let rest = order.remove(at);
    let key = keys[n - 1];
    lemma_slot(keys, rest, key, 0);
    let s = slot(keys, rest, key, 0);
    if s < at {
        // rest[s] == order[s] stands before the last line, yet its key comes later
        assert(rest[s] == order[s]);
        assert(le(keys[order[s]], keys[order[at]]));
    } else if s > at {
        // rest[at] == order[at + 1] stands after the last line with a key no later
        assert(rest[at] == order[at + 1]);
        assert(le(keys[rest[at]], key));
        assert(le(keys[order[at + 1]], keys[order[at]]) ==> order[at] < order[at + 1]);
        assert(0 <= order[at + 1] < n);
    }
}

/// The lowercase form of a text, as `str::to_lowercase` gives it.
pub uninterp spec fn lowercase(s: Seq<char>) -> Seq<char>;

/// `str::to_lowercase` gives the lowercase form of a text. The form depends
/// on the text alone: the same text has the same lowercase form every time.
#[verifier::external_body]
pub(crate) fn to_lowercase(s: &str) -> (lower: String)
    ensures
        lower@ == lowercase(s@),
{
    s.to_lowercase()
}

/// Texts as plain values.
pub open spec fn texts_view(v: Seq<String>) -> Seq<Seq<char>> {
    v.map_values(|s: String| s@)
}

/// The lines in the order of their keys; lines whose keys compare equal
/// stay in the order they came in.
pub open spec fn sorted_by(lines: Seq<Seq<char>>, keys: Seq<Seq<char>>) -> Seq<Seq<char>> {
    ranking(keys, lines.len() as int).map_values(|i: int| lines[i])
}

/// The lines in alphabetical order, upper and lower case taken as one.
pub open spec fn alphabetical(lines: Seq<Seq<char>>) -> Seq<Seq<char>> {
    sorted_by(lines, lines.map_values(|line: Seq<char>| lowercase(line)))
}

/// Sorts `lines` by `keys`, the key of `lines[i]` being `keys[i]`.
pub fn sort_by_keys(lines: &Vec<String>, keys: &Vec<Vec<char>>) -> (sorted: Vec<String>)
    requires
        keys.len() == lines.len(),
    ensures
        texts_view(sorted@) == sorted_by(texts_view(lines@), keys.deep_view()),
{
    let order = rank(keys);
    let ghost ranks = order@.map_values(|i: usize| i as int);
    proof {
        lemma_ranking(keys.deep_view(), keys.len() as int);
    }
    let mut sorted: Vec<String> = Vec::new();
    let mut j: usize = 0;
    while j < order.len()
        invariant
            j <= order.len(),
            order@.len() == lines.len(),
            ranks == order@.map_values(|i: usize| i as int),
            forall|k: int| 0 <= k < ranks.len() ==> 0 <= #[trigger] ranks[k] < lines.len(),
            sorted@.len() == j,
            forall|k: int|
                0 <= k < j ==> (#[trigger] sorted@[k])@ == lines@[order@[k] as int]@,
        decreases order.len() - j,
    {
        assert(ranks[j as int] == order@[j as int] as int);
        sorted.push(lines[order[j]].clone());
        j = j + 1;
    }
    proof {
        let expected = sorted_by(texts_view(lines@), keys.deep_view());
        assert(texts_view(sorted@).len() == expected.len());
        assert forall|k: int| 0 <= k < expected.len() implies texts_view(sorted@)[k]
            == expected[k] by {
            assert(ranks[k] == order@[k] as int);
        }
        assert(texts_view(sorted@) =~= expected);
    }
    sorted
}

/// Sorts `lines` alphabetically, upper and lower case taken as one.
pub fn sort_alphabetically(lines: &Vec<String>) -> (sorted: Vec<String>)
    ensures
        texts_view(sorted@) == alphabetical(texts_view(lines@)),
{
    let mut keys: Vec<Vec<char>> = Vec::new();
    let mut i: usize = 0;
    while i < lines.len()
        invariant
            i <= lines.len(),
            keys@.len() == i,
            forall|k: int| 0 <= k < i ==> (#[trigger] keys@[k])@ == lowercase(lines@[k]@),
        decreases lines.len() - i,
    {
        let lower = to_lowercase(lines[i].as_str());
        keys.push(crate::text::chars_of(lower.as_str()));
        i = i + 1;
    }
    proof {
        let wanted = texts_view(lines@).map_values(|line: Seq<char>| lowercase(line));
        assert(keys.deep_view().len() == wanted.len());
        assert forall|k: int| 0 <= k < wanted.len() implies keys.deep_view()[k] == wanted[k] by {
            assert(keys.deep_view()[k] == keys@[k]@);
        }
        assert(keys.deep_view() =~= wanted);
    }
    sort_by_keys(lines, &keys)
}

/// Lines put together with `separator` between each two.
pub open spec fn joined_with(lines: Seq<Seq<char>>, separator: Seq<char>) -> Seq<char>
    decreases lines.len(),
{
    if lines.len() == 0 {
        Seq::empty()
    } else if lines.len() == 1 {
        lines[0]
    } else {
        joined_with(lines.drop_last(), separator) + separator + lines.last()
    }
}

/// Puts `lines` together with `separator` between each two.
pub fn join(lines: &Vec<String>, separator: &str) -> (text: String)
    ensures
        text@ == joined_with(texts_view(lines@), separator@),
{
    let mut text = String::new();
    let ghost all = texts_view(lines@);
    let mut i: usize = 0;
    while i < lines.len()
        invariant
            i <= lines.len(),
            all == texts_view(lines@),
            text@ == joined_with(all.take(i as int), separator@),
        decreases lines.len() - i,
    {
        proof {
            assert(all.take(i + 1).drop_last() =~= all.take(i as int));
            assert(all.take(i + 1).last() == lines@[i as int]@);
        }
        if i > 0 {
            text.append(separator);
        }
        text.append(lines[i].as_str());
        proof {
            if i == 0 {
                assert(text@ =~= lines@[i as int]@);
            }
        }
        i = i + 1;
    }
    assert(all.take(i as int) =~= all);
    text
}

/// Ranks the lines by their keys.
pub fn rank(keys: &Vec<Vec<char>>) -> (order: Vec<usize>)
    ensures
        order@.map_values(|i: usize| i as int) == ranking(keys.deep_view(), keys.len() as int),
{
    let ghost ks = keys.deep_view();
    let mut order: Vec<usize> = Vec::new();
    let mut i: usize = 0;
    while i < keys.len()
        invariant
            i <= keys.len(),
            ks == keys.deep_view(),
            order@.map_values(|i: usize| i as int) == ranking(ks, i as int),
            order@.len() == i,
            forall|j: int| 0 <= j < order@.len() ==> order@[j] < i,
        decreases keys.len() - i,
    {
        let ghost before = order@.map_values(|i: usize| i as int);
        let mut j: usize = 0;
        while j < order.len() && text_le(&keys[order[j]], &keys[i])
            invariant
                j <= order.len(),
                i < keys.len(),
                ks == keys.deep_view(),
                before == order@.map_values(|i: usize| i as int),
                forall|j: int| 0 <= j < order@.len() ==> order@[j] < i,
                slot(ks, before, ks[i as int], 0) == slot(ks, before, ks[i as int], j as int),
            decreases order.len() - j,
        {
            proof {
                assert(before[j as int] == order@[j as int] as int);
                assert(ks[order@[j as int] as int] == keys@[order@[j as int] as int]@);
                assert(ks[i as int] == keys@[i as int]@);
            }
            j = j + 1;
        }
        proof {
            assert(ks[i as int] == keys@[i as int]@);
            if j < order.len() {
                assert(before[j as int] == order@[j as int] as int);
                assert(ks[order@[j as int] as int] == keys@[order@[j as int] as int]@);
            }
            assert(slot(ks, before, ks[i as int], 0) == j as int);
            assert(order@.insert(j as int, i).map_values(|i: usize| i as int) =~= before.insert(
                j as int,
                i as int,
            ));
        }
        order.insert(j, i);
        i = i + 1;
    }
    order
}

} // verus!
