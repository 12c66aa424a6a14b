//! The set of servers that an article was asked of, and its fingerprint.

use vstd::prelude::*;

use crate::text::{
    before, chars_of, lemma_before_irreflexive, lemma_before_total, lemma_before_transitive,
    same_text, text_before,
};

verus! {

/// The texts of a list of owned names.
pub open spec fn names(servers: Seq<String>) -> Seq<Seq<char>> {
    servers.map_values(|s: String| s@)
}

/// The texts of a list of borrowed names.
pub open spec fn texts(servers: Seq<&str>) -> Seq<Seq<char>> {
    servers.map_values(|s: &str| s@)
}

/// Whether every name comes before those that follow it, so that none occurs
/// twice.
pub open spec fn ascending(list: Seq<Seq<char>>) -> bool {
    forall|i: int, j: int|
        0 <= i < j < list.len() ==> before(#[trigger] list[i], #[trigger] list[j])
}

/// Whether two lists hold the same names, whatever their order and however
/// often each occurs.
pub open spec fn same_names(a: Seq<Seq<char>>, b: Seq<Seq<char>>) -> bool {
    forall|x: Seq<char>| #[trigger] a.contains(x) <==> b.contains(x)
}

/// The names of a list, each once, in ascending order.
pub open spec fn sorted_names(list: Seq<Seq<char>>) -> Seq<Seq<char>> {
    choose|s: Seq<Seq<char>>| ascending(s) && same_names(s, list)
}

/// The names of a list with a comma between neighbours.
pub open spec fn joined(list: Seq<Seq<char>>) -> Seq<char>
    decreases list.len(),
{
    if list.len() == 0 {
        Seq::empty()
    } else if list.len() == 1 {
        list[0]
    } else {
        joined(list.drop_last()) + seq![','] + list.last()
    }
}

/// A name with its commas and backslashes escaped, so that it holds no comma.
pub open spec fn escaped(name: Seq<char>) -> Seq<char>
    decreases name.len(),
{
    if name.len() == 0 {
        Seq::empty()
    } else {
        let first = if name[0] == ',' {
            seq!['\\', 'c']
        } else if name[0] == '\\' {
            seq!['\\', '\\']
        } else {
            seq![name[0]]
        };
        first + escaped(name.drop_first())
    }
}

/// Whether no name of a list holds a comma.
pub open spec fn comma_free(list: Seq<Seq<char>>) -> bool {
    forall|i: int| 0 <= i < list.len() ==> !(#[trigger] list[i]).contains(',')
}

/// The words that are joined for an ascending list of names. Mostly these are
/// the names. Where a name holds a comma, and for a lone server without a name,
/// the names are escaped and follow two empty words, which no ascending list
/// starts with.
pub open spec fn spelled(list: Seq<Seq<char>>) -> Seq<Seq<char>> {
    if comma_free(list) && list != seq![Seq::<char>::empty()] {
        list
    } else {
        seq![Seq::<char>::empty(), Seq::<char>::empty()] + list.map_values(
            |name: Seq<char>| escaped(name),
        )
    }
}

/// The fingerprint of a list of server names: the distinct names in ascending
/// order, spelled so that they can be told apart, and joined by commas.
pub open spec fn fingerprint(list: Seq<Seq<char>>) -> Seq<char> {
    joined(spelled(sorted_names(list)))
}

/// The last name of an ascending list is met nowhere else in it, and no name
/// of the list comes after it.
proof fn lemma_last_is_greatest(list: Seq<Seq<char>>, x: Seq<char>)
    requires
        ascending(list),
        list.contains(x),
    ensures
        list.drop_last().contains(x) <==> x != list.last(),
        x == list.last() || before(x, list.last()),
{
    let i = choose|i: int| 0 <= i < list.len() && list[i] == x;
    lemma_before_irreflexive(x);
    if i < list.len() - 1 {
        assert(list.drop_last()[i] == x);
    }
    if list.drop_last().contains(x) {
        let k = choose|k: int| 0 <= k < list.len() - 1 && list.drop_last()[k] == x;
        assert(before(list[k], list[list.len() - 1]));
    }
}

/// Two ascending lists of the same names are equal.
pub proof fn lemma_ascending_unique(a: Seq<Seq<char>>, b: Seq<Seq<char>>)
    requires
        ascending(a),
        ascending(b),
        same_names(a, b),
    ensures
        a == b,
    decreases a.len(),
{
    if a.len() == 0 {
        if b.len() > 0 {
            assert(b.contains(b[0]));
            assert(a.contains(b[0]));
        }
        assert(a =~= b);
    } else {
        assert(a.contains(a.last()));
        assert(b.contains(a.last()));
        assert(b.contains(b.last()));
        assert(a.contains(b.last()));
        lemma_last_is_greatest(a, b.last());
        lemma_last_is_greatest(b, a.last());
        if a.last() != b.last() {
            lemma_before_transitive(a.last(), b.last(), a.last());
            lemma_before_irreflexive(a.last());
        }
        assert forall|x: Seq<char>| #[trigger]
            a.drop_last().contains(x) <==> b.drop_last().contains(x) by {
            if a.drop_last().contains(x) {
                let i = choose|i: int| 0 <= i < a.len() - 1 && a.drop_last()[i] == x;
                assert(a[i] == x);
                assert(a.contains(x));
                lemma_last_is_greatest(a, x);
                lemma_last_is_greatest(b, x);
            }
            if b.drop_last().contains(x) {
                let i = choose|i: int| 0 <= i < b.len() - 1 && b.drop_last()[i] == x;
                assert(b[i] == x);
                assert(b.contains(x));
                lemma_last_is_greatest(b, x);
                lemma_last_is_greatest(a, x);
            }
        }
        lemma_ascending_unique(a.drop_last(), b.drop_last());
        assert(a =~= a.drop_last().push(a.last()));
        assert(b =~= b.drop_last().push(b.last()));
    }
}

/// An ascending list of the same names is what `sorted_names` gives.
pub proof fn lemma_sorted_names(list: Seq<Seq<char>>, sorted: Seq<Seq<char>>)
    requires
        ascending(sorted),
        same_names(sorted, list),
    ensures
        sorted_names(list) == sorted,
{
    let s = sorted_names(list);
    assert(ascending(s) && same_names(s, list));
    assert forall|x: Seq<char>| #[trigger] s.contains(x) <==> sorted.contains(x) by {
        assert(list.contains(x) <==> s.contains(x));
        assert(list.contains(x) <==> sorted.contains(x));
    }
    lemma_ascending_unique(s, sorted);
}

/// A name put between those before it and those after it leaves a list
/// ascending.
proof fn lemma_insert_ascending(list: Seq<Seq<char>>, x: Seq<char>, i: int)
    requires
        ascending(list),
        0 <= i <= list.len(),
        forall|j: int| 0 <= j < i ==> before(#[trigger] list[j], x),
        i < list.len() ==> before(x, list[i]),
    ensures
        ascending(list.insert(i, x)),
        forall|y: Seq<char>| #[trigger]
            list.insert(i, x).contains(y) <==> list.contains(y) || y == x,
{
    let after = list.insert(i, x);
    assert forall|j: int| i <= j < list.len() implies before(x, #[trigger] list[j]) by {
        if j > i {
            lemma_before_transitive(x, list[i], list[j]);
        }
    }
    assert forall|j: int, k: int| 0 <= j < k < after.len() implies before(
        #[trigger] after[j],
        #[trigger] after[k],
    ) by {
        let jj = if j < i { j } else { j - 1 };
        let kk = if k < i { k } else { k - 1 };
        if j != i && k != i {
            assert(before(list[jj], list[kk]));
        }
    }
    assert forall|y: Seq<char>| #[trigger] after.contains(y) <==> list.contains(y) || y == x by {
        if after.contains(y) && y != x {
            let k = choose|k: int| 0 <= k < after.len() && after[k] == y;
            assert(list[if k < i { k } else { k - 1 }] == y);
        }
        if list.contains(y) {
            let k = choose|k: int| 0 <= k < list.len() && list[k] == y;
            assert(after[if k < i { k } else { k + 1 }] == y);
        }
        if y == x {
            assert(after[i] == y);
        }
    }
}

/// Where a name that an ascending list lacks would go.
proof fn lemma_place(list: Seq<Seq<char>>, x: Seq<char>) -> (i: int)
    requires
        ascending(list),
        !list.contains(x),
    ensures
        0 <= i <= list.len(),
        forall|j: int| 0 <= j < i ==> before(#[trigger] list[j], x),
        i < list.len() ==> before(x, list[i]),
    decreases list.len(),
{
    if list.len() == 0 {
        0
    } else {
        let last = list.last();
        assert(list.contains(last));
        lemma_before_total(last, x);
        if before(last, x) {
            assert forall|j: int| 0 <= j < list.len() implies before(#[trigger] list[j], x) by {
                if j < list.len() - 1 {
                    lemma_before_transitive(list[j], last, x);
                }
            }
            list.len() as int
        } else {
            let init = list.drop_last();
            if init.contains(x) {
                let k = choose|k: int| 0 <= k < init.len() && init[k] == x;
                assert(list[k] == x);
            }
            let i = lemma_place(init, x);
            assert forall|j: int| 0 <= j < i implies before(#[trigger] list[j], x) by {
                assert(init[j] == list[j]);
            }
            i
        }
    }
}

/// Every list of names can be put in ascending order.
proof fn lemma_sortable(list: Seq<Seq<char>>) -> (sorted: Seq<Seq<char>>)
    ensures
        ascending(sorted),
        same_names(sorted, list),
    decreases list.len(),
{
    if list.len() == 0 {
        list
    } else {
        let init = list.drop_last();
        let x = list.last();
        let sorted = lemma_sortable(init);
        let grown = if sorted.contains(x) {
            sorted
        } else {
            let i = lemma_place(sorted, x);
            lemma_insert_ascending(sorted, x, i);
            sorted.insert(i, x)
        };
        assert forall|y: Seq<char>| #[trigger] grown.contains(y) <==> list.contains(y) by {
            assert(sorted.contains(y) <==> init.contains(y));
            if init.contains(y) {
                let k = choose|k: int| 0 <= k < init.len() && init[k] == y;
                assert(list[k] == y);
            }
            if list.contains(y) && y != x {
                let k = choose|k: int| 0 <= k < list.len() && list[k] == y;
                assert(init[k] == y);
            }
            assert(list[list.len() - 1] == x);
        }
        grown
    }
}

/// `sorted_names` gives the names of a list in ascending order.
pub proof fn lemma_sorted_names_ascend(list: Seq<Seq<char>>)
    ensures
        ascending(sorted_names(list)),
        same_names(sorted_names(list), list),
{
    let sorted = lemma_sortable(list);
    assert(ascending(sorted) && same_names(sorted, list));
}

/// The fingerprint depends on which servers were asked alone: neither their
/// order nor repetitions matter.
pub proof fn fingerprint_ignores_order_and_repetition(a: Seq<Seq<char>>, b: Seq<Seq<char>>)
    requires
        same_names(a, b),
    ensures
        fingerprint(a) == fingerprint(b),
{
    lemma_sorted_names_ascend(b);
    let sorted = sorted_names(b);
    assert forall|x: Seq<char>| #[trigger] sorted.contains(x) <==> a.contains(x) by {
        assert(sorted.contains(x) <==> b.contains(x));
        assert(a.contains(x) <==> b.contains(x));
    }
    lemma_sorted_names(a, sorted);
}

/// Names without commas can be told from what they are joined to.
proof fn lemma_joined_injective(a: Seq<Seq<char>>, b: Seq<Seq<char>>)
    requires
        comma_free(a),
        comma_free(b),
        a.len() > 0,
        b.len() > 0,
        joined(a) == joined(b),
    ensures
        a == b,
    decreases a.len(),
{
    let text = joined(a);
    let p = joined(a.drop_last());
    let q = joined(b.drop_last());
    if a.len() == 1 && b.len() == 1 {
        assert(a =~= b);
    } else if a.len() == 1 {
        assert(text[q.len() as int] == ',');
        assert(a[0].contains(','));
    } else if b.len() == 1 {
        assert(text[p.len() as int] == ',');
        assert(b[0].contains(','));
    } else {
        let l = a.last();
        let m = b.last();
        assert(text == p + seq![','] + l);
        assert(text == q + seq![','] + m);
        if p.len() < q.len() {
            assert(text[q.len() as int] == ',');
            assert(l[q.len() - p.len() - 1] == ',');
            assert(l.contains(','));
        } else if q.len() < p.len() {
            assert(text[p.len() as int] == ',');
            assert(m[p.len() - q.len() - 1] == ',');
            assert(m.contains(','));
        }
        assert(p =~= text.take(p.len() as int));
        assert(q =~= text.take(q.len() as int));
        assert(l =~= text.skip(p.len() as int + 1));
        assert(m =~= text.skip(q.len() as int + 1));
        lemma_joined_injective(a.drop_last(), b.drop_last());
        assert(a =~= a.drop_last().push(l));
        assert(b =~= b.drop_last().push(m));
    }
}

/// An escaped name holds no comma.
proof fn lemma_escaped_comma_free(name: Seq<char>)
    ensures
        !escaped(name).contains(','),
    decreases name.len(),
{
    if name.len() > 0 {
        let rest = escaped(name.drop_first());
        lemma_escaped_comma_free(name.drop_first());
        let text = escaped(name);
        assert forall|i: int| 0 <= i < text.len() implies text[i] != ',' by {
            let first = text.len() - rest.len();
            if i >= first {
                assert(text[i] == rest[i - first]);
            }
        }
    }
}

/// A name can be told from what it is escaped to.
proof fn lemma_escaped_injective(a: Seq<char>, b: Seq<char>)
    requires
        escaped(a) == escaped(b),
    ensures
        a == b,
    decreases a.len(),
{
    let text = escaped(a);
    assert(a.len() > 0 ==> escaped(a).len() > 0);
    assert(b.len() > 0 ==> escaped(b).len() > 0);
    if a.len() == 0 || b.len() == 0 {
        assert(a =~= b);
    } else {
        let x = escaped(a.drop_first());
        let y = escaped(b.drop_first());
        assert(text[0] == if a[0] == ',' { '\\' } else { a[0] });
        assert(text[0] == if b[0] == ',' { '\\' } else { b[0] });
        if text[0] == '\\' {
            assert(text[1] == if a[0] == ',' { 'c' } else { '\\' });
            assert(text[1] == if b[0] == ',' { 'c' } else { '\\' });
        }
        assert(a[0] == b[0]);
        let width = text.len() - x.len();
        assert(x =~= text.skip(width));
        assert(y =~= text.skip(width));
        lemma_escaped_injective(a.drop_first(), b.drop_first());
        assert(a =~= seq![a[0]] + a.drop_first());
        assert(b =~= seq![b[0]] + b.drop_first());
    }
}

/// Spelled words hold no comma.
proof fn lemma_spelled_comma_free(list: Seq<Seq<char>>)
    ensures
        comma_free(spelled(list)),
{
    let words = spelled(list);
    assert forall|i: int| 0 <= i < words.len() implies !(#[trigger] words[i]).contains(',') by {
        if words != list && i >= 2 {
            lemma_escaped_comma_free(list[i - 2]);
        }
    }
}

/// An ascending list can be told from its spelled words.
proof fn lemma_spelled_injective(a: Seq<Seq<char>>, b: Seq<Seq<char>>)
    requires
        ascending(a),
        ascending(b),
        spelled(a) == spelled(b),
    ensures
        a == b,
{
    let nameless = seq![Seq::<char>::empty()];
    let plain_a = comma_free(a) && a != nameless;
    let plain_b = comma_free(b) && b != nameless;
    if plain_a && !plain_b {
        lemma_before_irreflexive(a[0]);
        assert(a[0] == spelled(b)[0] && a[1] == spelled(b)[1]);
    } else if plain_b && !plain_a {
        lemma_before_irreflexive(b[0]);
        assert(b[0] == spelled(a)[0] && b[1] == spelled(a)[1]);
    } else if !plain_a {
        assert(spelled(a).len() == a.len() + 2);
        assert(spelled(b).len() == b.len() + 2);
        assert forall|i: int| 0 <= i < a.len() implies a[i] == b[i] by {
            assert(spelled(a)[i + 2] == escaped(a[i]));
            assert(spelled(b)[i + 2] == escaped(b[i]));
            lemma_escaped_injective(a[i], b[i]);
        }
        assert(a =~= b);
    }
}

/// Nothing is joined to the empty text but the empty list.
proof fn lemma_joined_empty(list: Seq<Seq<char>>)
    ensures
        joined(spelled(list)).len() == 0 <==> list.len() == 0,
{
    let words = spelled(list);
    if list.len() == 0 {
        assert(comma_free(list));
    } else if words.len() == 1 {
        assert(words == list);
        if list[0].len() == 0 {
            assert(list[0] =~= Seq::empty());
            assert(list =~= seq![Seq::<char>::empty()]);
        }
    }
}

/// Two lists of servers have the same fingerprint if and only if they are the
/// same set of servers.
pub proof fn fingerprint_tells_server_sets_apart(a: Seq<Seq<char>>, b: Seq<Seq<char>>)
    ensures
        fingerprint(a) == fingerprint(b) <==> same_names(a, b),
{
    if same_names(a, b) {
        fingerprint_ignores_order_and_repetition(a, b);
    } else if fingerprint(a) == fingerprint(b) {
        lemma_sorted_names_ascend(a);
        lemma_sorted_names_ascend(b);
        let x = sorted_names(a);
        let y = sorted_names(b);
        lemma_joined_empty(x);
        lemma_joined_empty(y);
        if x.len() == 0 {
            assert(x =~= y);
        } else {
            lemma_spelled_comma_free(x);
            lemma_spelled_comma_free(y);
            lemma_joined_injective(spelled(x), spelled(y));
            lemma_spelled_injective(x, y);
        }
        assert forall|n: Seq<char>| #[trigger] a.contains(n) <==> b.contains(n) by {
            assert(x.contains(n) <==> a.contains(n));
            assert(y.contains(n) <==> b.contains(n));
        }
    }
}

/// Whether one list holds every name of another, and more.
pub open spec fn more_names(more: Seq<Seq<char>>, fewer: Seq<Seq<char>>) -> bool {
    &&& forall|x: Seq<char>| #[trigger] fewer.contains(x) ==> more.contains(x)
    &&& exists|x: Seq<char>| #[trigger] more.contains(x) && !fewer.contains(x)
}

/// Adding a provider changes the fingerprint, and so does removing one.
pub proof fn adding_or_removing_a_provider_changes_the_fingerprint(
    more: Seq<Seq<char>>,
    fewer: Seq<Seq<char>>,
)
    requires
        more_names(more, fewer),
    ensures
        fingerprint(more) != fingerprint(fewer),
{
    let extra = choose|x: Seq<char>| #[trigger] more.contains(x) && !fewer.contains(x);
    assert(!same_names(more, fewer)) by {
        assert(more.contains(extra) != fewer.contains(extra));
    }
    fingerprint_tells_server_sets_apart(more, fewer);
}

/// The names of a list are its texts, one for one.
pub proof fn names_are_the_texts(owned: Seq<String>, borrowed: Seq<&str>)
    ensures
        names(owned).len() == owned.len(),
        forall|i: int| 0 <= i < owned.len() ==> #[trigger] names(owned)[i] == owned[i]@,
        texts(borrowed).len() == borrowed.len(),
        forall|i: int| 0 <= i < borrowed.len() ==> #[trigger] texts(borrowed)[i] == borrowed[i]@,
{
}

/// Adding, removing or replacing a provider changes the fingerprint, and nothing
/// else does.
pub proof fn fingerprint_changes_exactly_with_the_providers(a: Seq<Seq<char>>, b: Seq<Seq<char>>)
    ensures
        fingerprint(a) == fingerprint(b) <==> forall|x: Seq<char>| #[trigger]
            a.contains(x) <==> b.contains(x),
{
    fingerprint_tells_server_sets_apart(a, b);
}

/// No server has the empty fingerprint, and one with a name that holds no comma
/// has its name.
pub proof fn fingerprint_of_one_server_is_its_name(name: Seq<char>)
    requires
        name.len() > 0,
        !name.contains(','),
    ensures
        fingerprint(Seq::empty()).len() == 0,
        fingerprint(seq![name]) == name,
{
    let none = Seq::<Seq<char>>::empty();
    lemma_sorted_names(none, none);
    assert(comma_free(none));
    lemma_sorted_names(seq![name], seq![name]);
    assert(comma_free(seq![name]));
    assert(seq![name][0] == name);
}

/// Where no name holds a comma, a server whose name comes after all others goes
/// to the end of the fingerprint, behind a comma. A server without a name adds
/// nothing in front of that comma.
pub proof fn greatest_name_ends_the_fingerprint(list: Seq<Seq<char>>, last: Seq<char>)
    requires
        list.len() > 0,
        forall|i: int|
            0 <= i < list.len() ==> !(#[trigger] list[i]).contains(',') && before(list[i], last),
        !last.contains(','),
    ensures
        (exists|i: int| 0 <= i < list.len() && (#[trigger] list[i]).len() > 0) ==> fingerprint(
            list.push(last),
        ) == fingerprint(list) + seq![','] + last,
        (forall|i: int| 0 <= i < list.len() ==> (#[trigger] list[i]).len() == 0) ==> fingerprint(
            list.push(last),
        ) == seq![','] + last,
{
    let all = list.push(last);
    let sorted = sorted_names(list);
    lemma_sorted_names_ascend(list);
    assert forall|i: int| 0 <= i < sorted.len() implies !(#[trigger] sorted[i]).contains(',')
        && before(sorted[i], last) by {
        assert(sorted.contains(sorted[i]));
        assert(list.contains(sorted[i]));
        let k = choose|k: int| 0 <= k < list.len() && list[k] == sorted[i];
        assert(list[k] == sorted[i]);
    }
    assert(list.contains(list[0]));
    assert(sorted.contains(list[0]));
    let grown = sorted.push(last);
    assert forall|i: int, j: int| 0 <= i < j < grown.len() implies before(
        #[trigger] grown[i],
        #[trigger] grown[j],
    ) by {
        assert(grown[i] == sorted[i]);
        if j < sorted.len() {
            assert(before(sorted[i], sorted[j]));
        }
    }
    assert forall|x: Seq<char>| #[trigger] grown.contains(x) <==> all.contains(x) by {
        assert(sorted.contains(x) <==> list.contains(x));
        if sorted.contains(x) {
            let i = choose|i: int| 0 <= i < sorted.len() && sorted[i] == x;
            assert(grown[i] == x);
        }
        if list.contains(x) {
            let i = choose|i: int| 0 <= i < list.len() && list[i] == x;
            assert(all[i] == x);
        }
        assert(grown[sorted.len() as int] == last);
        assert(all[list.len() as int] == last);
        if grown.contains(x) && x != last {
            let i = choose|i: int| 0 <= i < grown.len() && grown[i] == x;
            assert(sorted[i] == x);
        }
        if all.contains(x) && x != last {
            let i = choose|i: int| 0 <= i < all.len() && all[i] == x;
            assert(list[i] == x);
        }
    }
    lemma_sorted_names(all, grown);
    if exists|i: int| 0 <= i < list.len() && (#[trigger] list[i]).len() > 0 {
        let i = choose|i: int| 0 <= i < list.len() && (#[trigger] list[i]).len() > 0;
        assert(list.contains(list[i]));
        assert(sorted.contains(list[i]));
        assert(spelled(sorted) == sorted);
    }
    if forall|i: int| 0 <= i < list.len() ==> (#[trigger] list[i]).len() == 0 {
        assert forall|i: int| 0 <= i < sorted.len() implies (#[trigger] sorted[i]).len() == 0 by {
            assert(sorted.contains(sorted[i]));
            assert(list.contains(sorted[i]));
            let k = choose|k: int| 0 <= k < list.len() && list[k] == sorted[i];
            assert(list[k].len() == 0);
        }
        if sorted.len() > 1 {
            assert(sorted[0] =~= sorted[1]);
            lemma_before_irreflexive(sorted[0]);
        }
        assert(sorted[0] =~= Seq::empty());
        assert(joined(sorted) =~= Seq::empty());
    }
    assert forall|i: int| 0 <= i < grown.len() implies !(#[trigger] grown[i]).contains(',') by {
        if i < sorted.len() {
            assert(grown[i] == sorted[i]);
        }
    }
    assert(spelled(grown) == grown);
    assert(grown.drop_last() =~= sorted);
    assert(Seq::<char>::empty() + seq![','] + last =~= seq![','] + last);
}

/// In an ascending list every name comes before the next ones, so none occurs
/// twice.
pub proof fn ascending_lists_do_not_repeat(list: Seq<Seq<char>>)
    ensures
        ascending(list) <==> forall|i: int, j: int|
            #![trigger list[i], list[j]]
            0 <= i < j < list.len() ==> before(list[i], list[j]),
        ascending(list) ==> forall|i: int, j: int|
            #![trigger list[i], list[j]]
            0 <= i < j < list.len() ==> list[i] != list[j],
{
    if ascending(list) {
        assert forall|i: int, j: int|
            #![trigger list[i], list[j]]
            0 <= i < j < list.len() implies list[i] != list[j] by {
            lemma_before_irreflexive(list[i]);
        }
    }
}

/// Puts a name into an ascending list, unless the list already holds it.
pub(crate) fn insert_name<'a>(list: &mut Vec<&'a str>, name: &'a str)
    requires
        ascending(texts(old(list)@)),
    ensures
        ascending(texts(final(list)@)),
        forall|x: Seq<char>| #[trigger]
            texts(final(list)@).contains(x) <==> texts(old(list)@).contains(x) || x == name@,
{
    let ghost before_insert = texts(list@);
    let mut i: usize = 0;
    while i < list.len() && text_before(list[i], name)
        invariant
            i <= list.len(),
            texts(list@) == before_insert,
            forall|j: int| 0 <= j < i ==> before(#[trigger] before_insert[j], name@),
        decreases list.len() - i,
    {
        assert(before_insert[i as int] == list[i as int]@);
        i += 1;
    }
    if i < list.len() && same_text(list[i], name) {
        assert(before_insert[i as int] == name@);
        assert(before_insert.contains(name@));
        return ;
    }
    list.insert(i, name);
    proof {
        if i < before_insert.len() {
            lemma_before_total(before_insert[i as int], name@);
        }
        lemma_insert_ascending(before_insert, name@, i as int);
        assert(texts(list@) =~= before_insert.insert(i as int, name@));
    }
}

/// Whether a list holds a name.
pub(crate) fn holds_name(list: &Vec<&str>, name: &str) -> (held: bool)
    ensures
        held == texts(list@).contains(name@),
{
    let mut i: usize = 0;
    while i < list.len()
        invariant
            i <= list.len(),
            forall|j: int| 0 <= j < i ==> #[trigger] texts(list@)[j] != name@,
        decreases list.len() - i,
    {
        assert(texts(list@)[i as int] == list[i as int]@);
        if same_text(list[i], name) {
            return true;
        }
        i += 1;
    }
    false
}

/// A name with its commas and backslashes escaped.
fn escape(name: &str) -> (text: String)
    ensures
        text@ == escaped(name@),
{
    let chars: Vec<char> = chars_of(name);
    let mut text: String = String::new();
    let mut i: usize = 0;
    proof {
        reveal_strlit("\\c");
        reveal_strlit("\\\\");
        assert("\\c"@ =~= seq!['\\', 'c']);
        assert("\\\\"@ =~= seq!['\\', '\\']);
        assert(name@.skip(0) =~= name@);
        assert(text@ + escaped(name@) =~= escaped(name@));
    }
    while i < chars.len()
        invariant
            chars@ == name@,
            i <= chars.len(),
            "\\c"@ == seq!['\\', 'c'],
            "\\\\"@ == seq!['\\', '\\'],
            text@ + escaped(name@.skip(i as int)) == escaped(name@),
        decreases chars.len() - i,
    {
        let ghost before_char = text@;
        let ghost rest = name@.skip(i + 1);
        assert(name@.skip(i as int).drop_first() =~= rest);
        if chars[i] == ',' {
            text.append("\\c");
        } else if chars[i] == '\\' {
            text.append("\\\\");
        } else {
            text.append(name.substring_char(i, i + 1));
            assert(name@.subrange(i as int, i + 1) =~= seq![name@[i as int]]);
        }
        assert(text@ + escaped(rest) =~= before_char + escaped(name@.skip(i as int)));
        i += 1;
    }
    assert(text@ + escaped(name@.skip(i as int)) =~= text@);
    text
}

/// Whether no name of a list holds a comma.
fn lacks_commas(list: &Vec<&str>) -> (r: bool)
    ensures
        r == comma_free(texts(list@)),
{
    let mut i: usize = 0;
    while i < list.len()
        invariant
            i <= list.len(),
            forall|k: int| 0 <= k < i ==> !(#[trigger] texts(list@)[k]).contains(','),
        decreases list.len() - i,
    {
        let chars: Vec<char> = chars_of(list[i]);
        assert(texts(list@)[i as int] == chars@);
        let mut j: usize = 0;
        while j < chars.len()
            invariant
                i < list.len(),
                chars@ == texts(list@)[i as int],
                j <= chars.len(),
                forall|k: int| 0 <= k < j ==> chars@[k] != ',',
            decreases chars.len() - j,
        {
            if chars[j] == ',' {
                assert(texts(list@)[i as int].contains(','));
                return false;
            }
            j += 1;
        }
        i += 1;
    }
    true
}

/// The words that are joined for an ascending list of names.
fn spell(list: &Vec<&str>) -> (words: Vec<String>)
    ensures
        names(words@) == spelled(texts(list@)),
{
    let ghost given = texts(list@);
    let plain = lacks_commas(list) && !(list.len() == 1 && list[0].is_empty());
    let ghost marks = if plain {
        Seq::<Seq<char>>::empty()
    } else {
        seq![Seq::<char>::empty(), Seq::<char>::empty()]
    };
    let ghost spelling = if plain {
        given
    } else {
        given.map_values(|name: Seq<char>| escaped(name))
    };
    let mut words: Vec<String> = Vec::new();
    if !plain {
        words.push(String::new());
        words.push(String::new());
    }
    proof {
        assert((given == seq![Seq::<char>::empty()]) == (list.len() == 1 && list[0]@.len() == 0))
            by {
            if list.len() == 1 && list[0]@.len() == 0 {
                assert(given[0] =~= Seq::empty());
                assert(given =~= seq![Seq::<char>::empty()]);
            }
            if given == seq![Seq::<char>::empty()] {
                assert(given[0] == list[0]@);
            }
        }
        assert(marks + spelling =~= spelled(given));
        assert(names(words@) =~= marks + spelling.take(0));
    }
    let mut i: usize = 0;
    while i < list.len()
        invariant
            i <= list.len(),
            given == texts(list@),
            spelling == (if plain {
                given
            } else {
                given.map_values(|name: Seq<char>| escaped(name))
            }),
            names(words@) == marks + spelling.take(i as int),
        decreases list.len() - i,
    {
        let ghost held = words@;
        assert(given[i as int] == list[i as int]@);
        let word: String = if plain {
            list[i].to_owned()
        } else {
            escape(list[i])
        };
        words.push(word);
        assert(names(words@) =~= names(held).push(word@));
        assert(names(words@) =~= marks + spelling.take(i + 1));
        i += 1;
    }
    assert(spelling.take(list.len() as int) =~= spelling);
    words
}

/// Joins words by commas.
fn join_words(list: &Vec<String>) -> (text: String)
    ensures
        text@ == joined(names(list@)),
{
    let mut text: String = String::new();
    let mut i: usize = 0;
    assert(names(list@).take(0) =~= Seq::empty());
    while i < list.len()
        invariant
            i <= list.len(),
            text@ == joined(names(list@).take(i as int)),
        decreases list.len() - i,
    {
        proof {
            let next = names(list@).take(i + 1);
            assert(next.drop_last() =~= names(list@).take(i as int));
            assert(next.last() == list[i as int]@);
            reveal_strlit(",");
            assert(","@ =~= seq![',']);
        }
        if i > 0 {
            text.append(",");
        }
        text.append(list[i].as_str());
        i += 1;
    }
    assert(names(list@).take(list.len() as int) =~= names(list@));
    text
}

/// A stable fingerprint of the set of servers that were asked. Adding or
/// removing a provider changes it, which invalidates any prior verdict.
pub fn server_fingerprint(servers: &[String]) -> (text: String)
    ensures
        text@ == fingerprint(names(servers@)),
{
    let mut list: Vec<&str> = Vec::new();
    let mut i: usize = 0;
    assert(names(servers@).take(0) =~= Seq::empty());
    while i < servers.len()
        invariant
            i <= servers.len(),
            ascending(texts(list@)),
            same_names(texts(list@), names(servers@).take(i as int)),
        decreases servers.len() - i,
    {
        let ghost done = names(servers@).take(i as int);
        let ghost held = texts(list@);
        insert_name(&mut list, servers[i].as_str());
        proof {
            let next = names(servers@).take(i + 1);
            assert(next =~= done.push(servers[i as int]@));
            assert forall|x: Seq<char>| #[trigger]
                texts(list@).contains(x) <==> next.contains(x) by {
                assert(held.contains(x) <==> done.contains(x));
                if done.contains(x) {
                    let k = choose|k: int| 0 <= k < done.len() && done[k] == x;
                    assert(next[k] == x);
                }
                assert(next[i as int] == servers[i as int]@);
            }
        }
        i += 1;
    }
    proof {
        assert(names(servers@).take(servers.len() as int) =~= names(servers@));
        lemma_sorted_names(names(servers@), texts(list@));
    }
    join_words(&spell(&list))
}

} // verus!
