//! Tags: parsing the comma-delimited scan parameter, and reconciling the
//! tags a document declares with those the caller supplies.
//!
//! Reconciled tags are trimmed, never empty, and unique up to ASCII case; of
//! tags that differ only in case the one seen first is kept, declared tags
//! before caller tags.

use vstd::prelude::*;
use crate::text::{
    chars_of,
    eq_folded,
    folded,
    lemma_trimmed_is_trimmed,
    split,
    split_chars,
    string_of,
    string_views,
    sub_chars,
    trim_bounds,
    trimmed,
    views,
};

verus! {

/// The entries of `raw` trimmed, without those that are empty after
/// trimming, in order.
pub open spec fn cleaned(raw: Seq<Seq<char>>) -> Seq<Seq<char>>
    decreases raw.len(),
{
    if raw.len() == 0 {
        seq![]
    } else {
        let before = cleaned(raw.drop_last());
        let t = trimmed(raw.last());
        if t.len() == 0 {
            before
        } else {
            before.push(t)
        }
    }
}

/// The tags that a comma-delimited parameter names.
pub open spec fn parsed_tags(param: Seq<char>) -> Seq<Seq<char>> {
    cleaned(split(param, ','))
}

/// Whether some tag of `tags` has the case-folded form `key`.
pub open spec fn has_key(tags: Seq<Seq<char>>, key: Seq<char>) -> bool {
    exists|i: int| 0 <= i < tags.len() && folded(#[trigger] tags[i]) == key
}

/// Whether some entry of `raw` is, once trimmed, a tag with the case-folded
/// form `key`.
pub open spec fn offers_key(raw: Seq<Seq<char>>, key: Seq<char>) -> bool {
    exists|i: int|
        0 <= i < raw.len() && trimmed(#[trigger] raw[i]).len() > 0 && folded(trimmed(raw[i]))
            == key
}

/// Whether no two tags of `tags` are equal up to case.
pub open spec fn distinct_keys(tags: Seq<Seq<char>>) -> bool {
    forall|i: int, j: int|
        0 <= i < j < tags.len() ==> folded(#[trigger] tags[i]) != folded(#[trigger] tags[j])
}

/// Whether every tag of `tags` is trimmed and not empty.
pub open spec fn all_clean(tags: Seq<Seq<char>>) -> bool {
    forall|i: int|
        0 <= i < tags.len() ==> (#[trigger] tags[i]).len() > 0 && trimmed(tags[i]) == tags[i]
}

/// `acc` extended by the entries of `raw`, first to last: each is trimmed,
/// and added unless it is empty or equal up to case to a tag already there.
pub open spec fn merged(acc: Seq<Seq<char>>, raw: Seq<Seq<char>>) -> Seq<Seq<char>>
    decreases raw.len(),
{
    if raw.len() == 0 {
        acc
    } else {
        let before = merged(acc, raw.drop_last());
        let t = trimmed(raw.last());
        if t.len() == 0 || has_key(before, folded(t)) {
            before
        } else {
            before.push(t)
        }
    }
}

/// The reconciled tag set: the declared tags, then the caller's.
pub open spec fn reconciled(declared: Seq<Seq<char>>, caller: Seq<Seq<char>>) -> Seq<Seq<char>> {
    merged(merged(seq![], declared), caller)
}

/// What merging does: it keeps `acc` as a prefix, adds exactly the keys that
/// `raw` offers, and keeps keys distinct and tags clean.
pub proof fn lemma_merged(acc: Seq<Seq<char>>, raw: Seq<Seq<char>>)
    ensures
        acc.len() <= merged(acc, raw).len(),
        forall|i: int| 0 <= i < acc.len() ==> merged(acc, raw)[i] == acc[i],
        forall|key: Seq<char>| #[trigger]
            has_key(merged(acc, raw), key) <==> has_key(acc, key) || offers_key(raw, key),
        distinct_keys(acc) ==> distinct_keys(merged(acc, raw)),
        all_clean(acc) ==> all_clean(merged(acc, raw)),
    decreases raw.len(),
{
    if raw.len() > 0 {
        let rest = raw.drop_last();
        let before = merged(acc, rest);
        let t = trimmed(raw.last());
        let now = merged(acc, raw);
        lemma_merged(acc, rest);
        lemma_trimmed_is_trimmed(raw.last());
        assert forall|key: Seq<char>| #[trigger] has_key(now, key) implies has_key(acc, key)
            || offers_key(raw, key) by {
            let i = choose|i: int| 0 <= i < now.len() && folded(#[trigger] now[i]) == key;
            if i < before.len() {
                assert(folded(before[i]) == key);
                assert(has_key(before, key));
                if !has_key(acc, key) {
                    let j = choose|j: int|
                        0 <= j < rest.len() && trimmed(#[trigger] rest[j]).len() > 0 && folded(
                            trimmed(rest[j]),
                        ) == key;
                    assert(raw[j] == rest[j]);
                }
            } else {
                assert(trimmed(raw[raw.len() - 1]).len() > 0);
            }
        }
        assert forall|key: Seq<char>| has_key(acc, key) || offers_key(raw, key) implies #[trigger] has_key(
            now,
            key,
        ) by {
            if has_key(before, key) {
                let i = choose|i: int| 0 <= i < before.len() && folded(#[trigger] before[i]) == key;
                assert(folded(now[i]) == key);
            } else {
                let j = choose|j: int|
                    0 <= j < raw.len() && trimmed(#[trigger] raw[j]).len() > 0 && folded(
                        trimmed(raw[j]),
                    ) == key;
                if j < rest.len() {
                    assert(rest[j] == raw[j]);
                    assert(offers_key(rest, key));
                }
                assert(folded(now[now.len() - 1]) == key);
            }
        }
        if distinct_keys(acc) {
            assert forall|i: int, j: int| 0 <= i < j < now.len() implies folded(#[trigger] now[i])
                != folded(#[trigger] now[j]) by {
                if j < before.len() {
                    assert(now[i] == before[i] && now[j] == before[j]);
                } else {
                    assert(now[i] == before[i]);
                }
            }
        }
        if all_clean(acc) {
            assert forall|i: int| 0 <= i < now.len() implies (#[trigger] now[i]).len() > 0
                && trimmed(now[i]) == now[i] by {
                if i < before.len() {
                    assert(now[i] == before[i]);
                }
            }
        }
    }
}

/// Merging into a clean set with distinct keys adds nothing when every key
/// on offer is already there.
pub proof fn lemma_merged_nothing_new(acc: Seq<Seq<char>>, raw: Seq<Seq<char>>)
    requires
        forall|key: Seq<char>| offers_key(raw, key) ==> has_key(acc, key),
    ensures
        merged(acc, raw) == acc,
    decreases raw.len(),
{
    if raw.len() > 0 {
        let rest = raw.drop_last();
        assert forall|key: Seq<char>| offers_key(rest, key) implies has_key(acc, key) by {
            let j = choose|j: int|
                0 <= j < rest.len() && trimmed(#[trigger] rest[j]).len() > 0 && folded(
                    trimmed(rest[j]),
                ) == key;
            assert(raw[j] == rest[j]);
            assert(offers_key(raw, key));
        }
        lemma_merged_nothing_new(acc, rest);
        let t = trimmed(raw.last());
        if t.len() > 0 {
            assert(trimmed(raw[raw.len() - 1]).len() > 0);
            assert(offers_key(raw, folded(t)));
        }
    }
}

/// Of entries that are equal up to case the first is kept: every tag that
/// merging adds is the trimmed form of the first entry of `raw` with its
/// key, and no tag of `acc` had that key.
pub proof fn lemma_merged_first_seen(acc: Seq<Seq<char>>, raw: Seq<Seq<char>>, i: int)
    requires
        acc.len() <= i < merged(acc, raw).len(),
    ensures
        !has_key(acc, folded(merged(acc, raw)[i])),
        exists|j: int|
            0 <= j < raw.len() && merged(acc, raw)[i] == trimmed(#[trigger] raw[j]) && !offers_key(
                raw.take(j),
                folded(merged(acc, raw)[i]),
            ),
    decreases raw.len(),
{
    if raw.len() > 0 {
        let rest = raw.drop_last();
        let before = merged(acc, rest);
        let now = merged(acc, raw);
        let key = folded(now[i]);
        lemma_merged(acc, rest);
        if i < before.len() {
            assert(now[i] == before[i]);
            lemma_merged_first_seen(acc, rest, i);
            let j = choose|j: int|
                0 <= j < rest.len() && before[i] == trimmed(#[trigger] rest[j]) && !offers_key(
                    rest.take(j),
                    key,
                );
            assert(raw[j] == rest[j]);
            assert(raw.take(j) == rest.take(j));
        } else {
            let j = raw.len() - 1;
            assert(now[i] == trimmed(raw[j]));
            assert(raw.take(j) == rest);
            assert(has_key(before, key) <==> has_key(acc, key) || offers_key(rest, key));
        }
    }
}

/// The reconciled set is clean, has distinct keys, and has exactly the keys
/// that the declared and the caller's tags offer.
pub proof fn lemma_reconciled(declared: Seq<Seq<char>>, caller: Seq<Seq<char>>)
    ensures
        all_clean(reconciled(declared, caller)),
        distinct_keys(reconciled(declared, caller)),
        forall|key: Seq<char>| #[trigger]
            has_key(reconciled(declared, caller), key) <==> offers_key(declared, key)
                || offers_key(caller, key),
{
    let empty = Seq::<Seq<char>>::empty();
    lemma_merged(empty, declared);
    lemma_merged(merged(empty, declared), caller);
    assert forall|key: Seq<char>| #[trigger]
        has_key(reconciled(declared, caller), key) <==> offers_key(declared, key) || offers_key(
            caller,
            key,
        ) by {
        assert(!has_key(empty, key));
        assert(has_key(merged(empty, declared), key) <==> has_key(empty, key) || offers_key(
            declared,
            key,
        ));
    }
}

/// The case-folded forms of the tags.
pub open spec fn keys(tags: Seq<Seq<char>>) -> Set<Seq<char>> {
    tags.map_values(|t: Seq<char>| folded(t)).to_set()
}

/// A set with distinct keys has as many tags as keys.
pub proof fn lemma_distinct_keys_count(tags: Seq<Seq<char>>)
    requires
        distinct_keys(tags),
    ensures
        keys(tags).finite(),
        keys(tags).len() == tags.len(),
        forall|key: Seq<char>| keys(tags).contains(key) <==> has_key(tags, key),
{
    let ks = tags.map_values(|t: Seq<char>| folded(t));
    assert forall|i: int, j: int| 0 <= i < ks.len() && 0 <= j < ks.len() && i != j implies ks[i]
        != ks[j] by {
        if i < j {
            assert(folded(tags[i]) != folded(tags[j]));
        } else {
            assert(folded(tags[j]) != folded(tags[i]));
        }
    }
    ks.unique_seq_to_set();
    assert forall|key: Seq<char>| keys(tags).contains(key) <==> has_key(tags, key) by {
        if keys(tags).contains(key) {
            let i = choose|i: int| 0 <= i < ks.len() && ks[i] == key;
            assert(folded(tags[i]) == key);
        }
        if has_key(tags, key) {
            let i = choose|i: int| 0 <= i < tags.len() && folded(#[trigger] tags[i]) == key;
            assert(ks[i] == key);
            assert(ks.contains(key));
        }
    }
}

/// Reconciliation does not depend on the order or the multiplicity of the
/// caller's tags: supplying the same tags in another order, or some of them
/// twice, gives a set with the same keys and of the same size.
pub proof fn lemma_reconcile_order_independent(
    declared: Seq<Seq<char>>,
    caller_a: Seq<Seq<char>>,
    caller_b: Seq<Seq<char>>,
)
    requires
        forall|t: Seq<char>| caller_a.contains(t) <==> caller_b.contains(t),
    ensures
        keys(reconciled(declared, caller_a)) == keys(reconciled(declared, caller_b)),
        reconciled(declared, caller_a).len() == reconciled(declared, caller_b).len(),
{
    let ra = reconciled(declared, caller_a);
    let rb = reconciled(declared, caller_b);
    lemma_reconciled(declared, caller_a);
    lemma_reconciled(declared, caller_b);
    lemma_distinct_keys_count(ra);
    lemma_distinct_keys_count(rb);
    assert forall|key: Seq<char>| offers_key(caller_a, key) <==> offers_key(caller_b, key) by {
        lemma_same_offers(caller_a, caller_b, key);
        lemma_same_offers(caller_b, caller_a, key);
    }
    assert forall|key: Seq<char>| keys(ra).contains(key) <==> keys(rb).contains(key) by {
        assert(has_key(ra, key) <==> offers_key(declared, key) || offers_key(caller_a, key));
        assert(has_key(rb, key) <==> offers_key(declared, key) || offers_key(caller_b, key));
    }
    assert(keys(ra) =~= keys(rb));
}

proof fn lemma_same_offers(a: Seq<Seq<char>>, b: Seq<Seq<char>>, key: Seq<char>)
    requires
        forall|t: Seq<char>| a.contains(t) ==> b.contains(t),
    ensures
        offers_key(a, key) ==> offers_key(b, key),
{
    if offers_key(a, key) {
        let i = choose|i: int|
            0 <= i < a.len() && trimmed(#[trigger] a[i]).len() > 0 && folded(trimmed(a[i])) == key;
        assert(a.contains(a[i]));
        let j = choose|j: int| 0 <= j < b.len() && b[j] == a[i];
        assert(trimmed(b[j]).len() > 0 && folded(trimmed(b[j])) == key);
    }
}

/// Reconciliation is commutative in its two inputs up to the casing that is
/// kept: swapping declared and caller tags gives a set with the same keys
/// and of the same size.
pub proof fn lemma_reconcile_commutative(declared: Seq<Seq<char>>, caller: Seq<Seq<char>>)
    ensures
        keys(reconciled(declared, caller)) == keys(reconciled(caller, declared)),
        reconciled(declared, caller).len() == reconciled(caller, declared).len(),
{
    let ra = reconciled(declared, caller);
    let rb = reconciled(caller, declared);
    lemma_reconciled(declared, caller);
    lemma_reconciled(caller, declared);
    lemma_distinct_keys_count(ra);
    lemma_distinct_keys_count(rb);
    assert forall|key: Seq<char>| keys(ra).contains(key) <==> keys(rb).contains(key) by {
        assert(has_key(ra, key) <==> offers_key(declared, key) || offers_key(caller, key));
        assert(has_key(rb, key) <==> offers_key(caller, key) || offers_key(declared, key));
    }
    assert(keys(ra) =~= keys(rb));
}

/// Reconciliation is idempotent: reconciling its result with the same
/// caller tags again changes nothing.
pub proof fn lemma_reconcile_idempotent(declared: Seq<Seq<char>>, caller: Seq<Seq<char>>)
    ensures
        reconciled(reconciled(declared, caller), caller) == reconciled(declared, caller),
{
    let r = reconciled(declared, caller);
    let empty = Seq::<Seq<char>>::empty();
    lemma_reconciled(declared, caller);
    lemma_merged_same(r);
    assert forall|key: Seq<char>| offers_key(caller, key) implies has_key(r, key) by {
        assert(has_key(r, key) <==> offers_key(declared, key) || offers_key(caller, key));
    }
    lemma_merged_nothing_new(r, caller);
}

/// Merging a clean set with distinct keys into the empty set gives it back.
pub proof fn lemma_merged_same(tags: Seq<Seq<char>>)
    requires
        all_clean(tags),
        distinct_keys(tags),
    ensures
        merged(seq![], tags) == tags,
    decreases tags.len(),
{
    let empty = Seq::<Seq<char>>::empty();
    if tags.len() == 0 {
        assert(tags =~= empty);
    } else {
        let rest = tags.drop_last();
        assert(all_clean(rest)) by {
            assert forall|i: int| 0 <= i < rest.len() implies (#[trigger] rest[i]).len() > 0
                && trimmed(rest[i]) == rest[i] by {
                assert(rest[i] == tags[i]);
            }
        }
        assert(distinct_keys(rest)) by {
            assert forall|i: int, j: int| 0 <= i < j < rest.len() implies folded(
                #[trigger] rest[i],
            ) != folded(#[trigger] rest[j]) by {
                assert(rest[i] == tags[i] && rest[j] == tags[j]);
            }
        }
        lemma_merged_same(rest);
        let last = tags[tags.len() - 1];
        assert(trimmed(last) == last && last.len() > 0);
        if has_key(rest, folded(last)) {
            let i = choose|i: int| 0 <= i < rest.len() && folded(#[trigger] rest[i]) == folded(last);
            assert(rest[i] == tags[i]);
            assert(folded(tags[i]) != folded(tags[tags.len() - 1]));
        }
        assert(rest.push(last) =~= tags);
    }
}

/// Splits a comma-delimited parameter into tags: each piece is trimmed, and
/// empty pieces are dropped.
pub fn split_tags(param: &str) -> (tags: Vec<String>)
    ensures
        string_views(tags@) == parsed_tags(param@),
{
    let chars = chars_of(param);
    let pieces = split_chars(&chars, ',');
    let ghost raw = split(param@, ',');
    let mut tags: Vec<String> = Vec::new();
    let mut i: usize = 0;
    assert(raw.take(0) =~= seq![]);
    assert(string_views(tags@) =~= seq![]);
    while i < pieces.len()
        invariant
            i <= pieces.len(),
            views(pieces@) == raw,
            string_views(tags@) == cleaned(raw.take(i as int)),
        decreases pieces.len() - i,
    {
        let piece = &pieces[i];
        let (a, b) = trim_bounds(piece, 0, piece.len());
        proof {
            assert(raw.take(i + 1).drop_last() == raw.take(i as int));
            assert(raw.take(i + 1).last() == piece@);
            assert(piece@.subrange(0, piece.len() as int) == piece@);
        }
        if a < b {
            let ghost before = tags@;
            tags.push(string_of(piece, a, b));
            assert(string_views(tags@) =~= string_views(before).push(trimmed(piece@)));
        }
        i += 1;
    }
    assert(raw.take(pieces.len() as int) == raw);
    tags
}

/// The characters of each string.
fn strings_to_chars(strings: &Vec<String>) -> (r: Vec<Vec<char>>)
    ensures
        views(r@) == string_views(strings@),
{
    let mut r: Vec<Vec<char>> = Vec::new();
    let mut i: usize = 0;
    while i < strings.len()
        invariant
            i <= strings.len(),
            views(r@) == string_views(strings@).take(i as int),
        decreases strings.len() - i,
    {
        let ghost before = r@;
        r.push(chars_of(strings[i].as_str()));
        assert(views(r@) =~= views(before).push(strings@[i as int]@));
        i += 1;
    }
    r
}

/// Merges `raw` into `out`. `chars` holds the characters of the tags of
/// `out`, for comparison.
pub(crate) fn merge_pieces(out: &mut Vec<String>, chars: &mut Vec<Vec<char>>, raw: &Vec<Vec<char>>)
    requires
        views(old(chars)@) == string_views(old(out)@),
    ensures
        views(final(chars)@) == string_views(final(out)@),
        string_views(final(out)@) == merged(string_views(old(out)@), views(raw@)),
{
    let ghost acc = string_views(out@);
    let ghost all = views(raw@);
    let mut i: usize = 0;
    assert(all.take(0) =~= seq![]);
    while i < raw.len()
        invariant
            i <= raw.len(),
            all == views(raw@),
            views(chars@) == string_views(out@),
            string_views(out@) == merged(acc, all.take(i as int)),
        decreases raw.len() - i,
    {
        let v = &raw[i];
        let (a, b) = trim_bounds(v, 0, v.len());
        proof {
            assert(all.take(i + 1).drop_last() == all.take(i as int));
            assert(all.take(i + 1).last() == v@);
            assert(v@.subrange(0, v.len() as int) == v@);
        }
        if a < b {
            let t = sub_chars(v, a, b);
            let ghost now = string_views(out@);
            let mut seen = false;
            let mut j: usize = 0;
            while j < chars.len() && !seen
                invariant
                    j <= chars.len(),
                    views(chars@) == now,
                    seen ==> has_key(now, folded(t@)),
                    !seen ==> forall|k: int| 0 <= k < j ==> folded(#[trigger] now[k]) != folded(t@),
                decreases chars.len() - j + if seen { 0int } else { 1int },
            {
                if eq_folded(&chars[j], &t) {
                    seen = true;
                    assert(folded(now[j as int]) == folded(t@));
                } else {
                    assert(now[j as int] == chars@[j as int]@);
                    j += 1;
                }
            }
            if !seen {
                let ghost out_before = out@;
                let ghost chars_before = chars@;
                out.push(string_of(v, a, b));
                chars.push(t);
                assert(string_views(out@) =~= string_views(out_before).push(t@));
                assert(views(chars@) =~= views(chars_before).push(t@));
            }
        }
        i += 1;
    }
    assert(all.take(raw.len() as int) == all);
}

/// Reconciles the tags a document declares with those the caller supplies:
/// their union, trimmed, without empty tags, unique up to case, keeping the
/// casing seen first.
pub fn reconcile_tags(declared: &Vec<String>, caller: &Vec<String>) -> (tags: Vec<String>)
    ensures
        string_views(tags@) == reconciled(string_views(declared@), string_views(caller@)),
        all_clean(string_views(tags@)),
        distinct_keys(string_views(tags@)),
        forall|key: Seq<char>| #[trigger]
            has_key(string_views(tags@), key) <==> offers_key(string_views(declared@), key)
                || offers_key(string_views(caller@), key),
{
    let mut tags: Vec<String> = Vec::new();
    let mut chars: Vec<Vec<char>> = Vec::new();
    assert(views(chars@) =~= string_views(tags@));
    assert(string_views(tags@) =~= seq![]);
    let declared_chars = strings_to_chars(declared);
    let caller_chars = strings_to_chars(caller);
    merge_pieces(&mut tags, &mut chars, &declared_chars);
    merge_pieces(&mut tags, &mut chars, &caller_chars);
    proof {
        lemma_reconciled(string_views(declared@), string_views(caller@));
    }
    tags
}

} // verus!
