use vstd::prelude::*;

verus! {

/// The set of texts held by a list of keywords.
pub open spec fn text_set(v: Seq<String>) -> Set<Seq<char>> {
    Set::new(|k: Seq<char>| exists|i: int| 0 <= i < v.len() && v[i]@ == k)
}

/// No text occurs twice in the list.
pub open spec fn distinct(v: Seq<String>) -> bool {
    forall|i: int, j: int| 0 <= i < j < v.len() ==> v[i]@ != v[j]@
}

/// Keywords that stay through an edit.
pub open spec fn kept_of(before: Set<Seq<char>>, after: Set<Seq<char>>) -> Set<Seq<char>> {
    after.intersect(before)
}

/// Keywords that an edit brings in.
pub open spec fn added_of(before: Set<Seq<char>>, after: Set<Seq<char>>) -> Set<Seq<char>> {
    after.difference(before)
}

/// Keywords that an edit takes away.
pub open spec fn deleted_of(before: Set<Seq<char>>, after: Set<Seq<char>>) -> Set<Seq<char>> {
    before.difference(after)
}

/// The keyword set after a request to add `add` and delete `del`: additions are limited to
/// terms not yet present and deletions to terms that are present, both judged against `before`.
pub open spec fn applied(
    before: Set<Seq<char>>,
    add: Set<Seq<char>>,
    del: Set<Seq<char>>,
) -> Set<Seq<char>> {
    before.union(add.difference(before)).difference(del.intersect(before))
}

pub fn contains(v: &Vec<String>, s: &String) -> (r: bool)
    ensures
        r == text_set(v@).contains(s@),
{
    let mut i: usize = 0;
    while i < v.len()
        invariant
            i <= v.len(),
            forall|j: int| 0 <= j < i ==> v@[j]@ != s@,
        decreases v.len() - i,
    {
        if v[i] == *s {
            return true;
        }
        i = i + 1;
    }
    false
}

/// The terms of `a` that `b` lacks (`keep == false`), or that `b` has too (`keep == true`),
/// in the order of `a`.
fn select(a: &Vec<String>, b: &Vec<String>, keep: bool) -> (r: Vec<String>)
    ensures
        keep ==> text_set(r@) == text_set(a@).intersect(text_set(b@)),
        !keep ==> text_set(r@) == text_set(a@).difference(text_set(b@)),
        distinct(a@) ==> distinct(r@),
{
    let mut r: Vec<String> = Vec::new();
    let mut i: usize = 0;
    while i < a.len()
        invariant
            i <= a.len(),
            forall|k: Seq<char>|
                text_set(r@).contains(k) <==> (exists|j: int|
                    0 <= j < i && a@[j]@ == k && (text_set(b@).contains(k) == keep)),
            distinct(a@) ==> distinct(r@),
            distinct(a@) ==> forall|x: int|
                0 <= x < r.len() ==> exists|j: int| 0 <= j < i && a@[j]@ == (#[trigger] r@[x])@,
        decreases a.len() - i,
    {
        let found = contains(b, &a[i]);
        if found == keep {
            let ghost old_r = r@;
            r.push(a[i].clone());
            proof {
                assert(r@ == old_r.push(a@[i as int]));
                assert forall|k: Seq<char>|
                    text_set(r@).contains(k) <==> (exists|j: int|
                        0 <= j < i + 1 && a@[j]@ == k && (text_set(b@).contains(k) == keep)) by {
                    if text_set(r@).contains(k) {
                        let x = choose|x: int| 0 <= x < r@.len() && r@[x]@ == k;
                        if x < old_r.len() {
                            assert(text_set(old_r).contains(k));
                        }
                    }
                    if exists|j: int|
                        0 <= j < i + 1 && a@[j]@ == k && (text_set(b@).contains(k) == keep) {
                        let j = choose|j: int|
                            0 <= j < i + 1 && a@[j]@ == k && (text_set(b@).contains(k) == keep);
                        if j < i {
                            assert(text_set(old_r).contains(k));
                            let x = choose|x: int| 0 <= x < old_r.len() && old_r[x]@ == k;
                            assert(r@[x]@ == k);
                        } else {
                            assert(r@[old_r.len() as int]@ == k);
                        }
                    }
                }
                if distinct(a@) {
                    assert forall|x: int, y: int| 0 <= x < y < r@.len() implies r@[x]@ != r@[y]@ by {
                        if y == old_r.len() {
                            let j = choose|j: int| 0 <= j < i && a@[j]@ == old_r[x]@;
                            assert(a@[j]@ != a@[i as int]@);
                        }
                    }
                    assert forall|x: int| 0 <= x < r.len() implies exists|j: int|
                        0 <= j < i + 1 && a@[j]@ == (#[trigger] r@[x])@ by {
                        if x < old_r.len() {
                            let j = choose|j: int| 0 <= j < i && a@[j]@ == old_r[x]@;
                            assert(a@[j]@ == r@[x]@);
                        } else {
                            assert(a@[i as int]@ == r@[x]@);
                        }
                    }
                }
            }
        } else {
            proof {
                assert forall|k: Seq<char>|
                    text_set(r@).contains(k) <==> (exists|j: int|
                        0 <= j < i + 1 && a@[j]@ == k && (text_set(b@).contains(k) == keep)) by {
                    if exists|j: int|
                        0 <= j < i + 1 && a@[j]@ == k && (text_set(b@).contains(k) == keep) {
                        let j = choose|j: int|
                            0 <= j < i + 1 && a@[j]@ == k && (text_set(b@).contains(k) == keep);
                        if j == i {
                            assert(text_set(b@).contains(a@[i as int]@) == found);
                        }
                    }
                }
            }
        }
        i = i + 1;
    }
    proof {
        if keep {
            assert(text_set(r@) =~= text_set(a@).intersect(text_set(b@)));
        } else {
            assert(text_set(r@) =~= text_set(a@).difference(text_set(b@)));
        }
    }
    r
}

/// The terms of `a` that are not in `b`.
pub fn difference(a: &Vec<String>, b: &Vec<String>) -> (r: Vec<String>)
    ensures
        text_set(r@) == text_set(a@).difference(text_set(b@)),
        distinct(a@) ==> distinct(r@),
{
    select(a, b, false)
}

/// The terms of `a` that are also in `b`.
pub fn intersection(a: &Vec<String>, b: &Vec<String>) -> (r: Vec<String>)
    ensures
        text_set(r@) == text_set(a@).intersect(text_set(b@)),
        distinct(a@) ==> distinct(r@),
{
    select(a, b, true)
}

/// The terms of `a` followed by those of `b`.
fn join(a: Vec<String>, b: Vec<String>) -> (r: Vec<String>)
    ensures
        r@ == a@ + b@,
        text_set(r@) == text_set(a@).union(text_set(b@)),
{
    let ghost av = a@;
    let ghost bv = b@;
    let mut r = a;
    let mut tail = b;
    r.append(&mut tail);
    proof {
        assert(r@ == av + bv);
        assert forall|k: Seq<char>| text_set(r@).contains(k) <==> text_set(av).union(
            text_set(bv),
        ).contains(k) by {
            if text_set(r@).contains(k) {
                let x = choose|x: int| 0 <= x < r@.len() && r@[x]@ == k;
                if x >= av.len() {
                    assert(bv[x - av.len()]@ == k);
                }
            }
            if text_set(bv).contains(k) {
                let x = choose|x: int| 0 <= x < bv.len() && bv[x]@ == k;
                assert(r@[x + av.len()]@ == k);
            }
            if text_set(av).contains(k) {
                let x = choose|x: int| 0 <= x < av.len() && av[x]@ == k;
                assert(r@[x]@ == k);
            }
        }
        assert(text_set(r@) =~= text_set(av).union(text_set(bv)));
    }
    r
}

/// How an edit changed a keyword set, split in three disjoint parts.
pub struct AlteredKeywords {
    pub kept: Vec<String>,
    pub added: Vec<String>,
    pub deleted: Vec<String>,
}

/// Splits the change from `before` to `after` into the kept, added and deleted terms.
pub fn alter(before: &Vec<String>, after: &Vec<String>) -> (r: AlteredKeywords)
    ensures
        text_set(r.kept@) == kept_of(text_set(before@), text_set(after@)),
        text_set(r.added@) == added_of(text_set(before@), text_set(after@)),
        text_set(r.deleted@) == deleted_of(text_set(before@), text_set(after@)),
        distinct(before@) && distinct(after@) ==> distinct(r.kept@) && distinct(r.added@)
            && distinct(r.deleted@),
{
    AlteredKeywords {
        kept: intersection(after, before),
        added: difference(after, before),
        deleted: difference(before, after),
    }
}

/// Drops the no-op terms of a request: additions already present and deletions not present.
pub fn filter_request(before: &Vec<String>, add: &Vec<String>, del: &Vec<String>) -> (r: (
    Vec<String>,
    Vec<String>,
))
    ensures
        text_set(r.0@) == text_set(add@).difference(text_set(before@)),
        text_set(r.1@) == text_set(del@).intersect(text_set(before@)),
        distinct(add@) ==> distinct(r.0@),
        distinct(del@) ==> distinct(r.1@),
{
    (difference(add, before), intersection(del, before))
}

/// The keyword list that results from a request to add `add` and delete `del` from `before`.
pub fn apply_request(before: &Vec<String>, add: &Vec<String>, del: &Vec<String>) -> (r: Vec<String>)
    ensures
        text_set(r@) == applied(text_set(before@), text_set(add@), text_set(del@)),
        distinct(before@) && distinct(add@) ==> distinct(r@),
{
    let (add_new, del_exist) = filter_request(before, add, del);
    let rest = difference(before, &del_exist);
    let ghost rest_v = rest@;
    let ghost add_v = add_new@;
    let r = join(rest, add_new);
    proof {
        let b = text_set(before@);
        let a = text_set(add@);
        let d = text_set(del@);
        assert(text_set(r@) =~= applied(b, a, d));
        if distinct(before@) && distinct(add@) {
            assert forall|x: int, y: int| 0 <= x < y < r@.len() implies r@[x]@ != r@[y]@ by {
                if x < rest_v.len() && y >= rest_v.len() {
                    assert(text_set(rest_v).contains(r@[x]@));
                    assert(add_v[y - rest_v.len()] == r@[y]);
                    assert(text_set(add_v).contains(r@[y]@));
                }
                if x >= rest_v.len() {
                    assert(add_v[x - rest_v.len()] == r@[x]);
                    assert(add_v[y - rest_v.len()] == r@[y]);
                }
            }
        }
    }
    r
}

/// The three parts of a keyword edit together hold exactly the terms present before or after
/// it, and no term falls in two of them.
pub proof fn lemma_alteration_partition(before: Set<Seq<char>>, after: Set<Seq<char>>)
    ensures
        kept_of(before, after).union(added_of(before, after)).union(deleted_of(before, after))
            == before.union(after),
        kept_of(before, after).intersect(added_of(before, after)) == Set::<Seq<char>>::empty(),
        kept_of(before, after).intersect(deleted_of(before, after)) == Set::<Seq<char>>::empty(),
        added_of(before, after).intersect(deleted_of(before, after)) == Set::<Seq<char>>::empty(),
{
    assert(kept_of(before, after).union(added_of(before, after)).union(deleted_of(before, after))
        =~= before.union(after));
    assert(kept_of(before, after).intersect(added_of(before, after)) =~= Set::<
        Seq<char>,
    >::empty());
    assert(kept_of(before, after).intersect(deleted_of(before, after)) =~= Set::<
        Seq<char>,
    >::empty());
    assert(added_of(before, after).intersect(deleted_of(before, after)) =~= Set::<
        Seq<char>,
    >::empty());
}

/// Once a request whose additions and deletions do not overlap has been applied, applying it
/// again adds nothing and deletes nothing.
pub proof fn lemma_request_idempotent(
    before: Set<Seq<char>>,
    add: Set<Seq<char>>,
    del: Set<Seq<char>>,
)
    requires
        add.intersect(del) == Set::<Seq<char>>::empty(),
    ensures
        added_of(applied(before, add, del), applied(applied(before, add, del), add, del))
            == Set::<Seq<char>>::empty(),
        deleted_of(applied(before, add, del), applied(applied(before, add, del), add, del))
            == Set::<Seq<char>>::empty(),
{
    let once = applied(before, add, del);
    assert forall|k: Seq<char>| add.contains(k) implies !del.contains(k) by {
        assert(!add.intersect(del).contains(k));
    }
    assert(applied(once, add, del) =~= once);
    assert(added_of(once, once) =~= Set::<Seq<char>>::empty());
    assert(deleted_of(once, once) =~= Set::<Seq<char>>::empty());
}

/// The texts of `v`, each once, in order of first appearance.
pub fn unique(v: &Vec<String>) -> (r: Vec<String>)
    ensures
        text_set(r@) == text_set(v@),
        distinct(r@),
{
    let mut r: Vec<String> = Vec::new();
    let mut i: usize = 0;
    while i < v.len()
        invariant
            i <= v@.len(),
            text_set(r@) == text_set(v@.subrange(0, i as int)),
            distinct(r@),
        decreases v.len() - i,
    {
        let ghost prev = r@;
        let ghost cur = v@.subrange(0, i as int);
        let ghost next = v@.subrange(0, i + 1);
        let present = contains(&r, &v[i]);
        if !present {
            r.push(v[i].clone());
        }
        proof {
            assert(next =~= cur.push(v@[i as int]));
            assert forall|k: Seq<char>| text_set(r@).contains(k) <==> text_set(next).contains(k) by {
                if text_set(r@).contains(k) {
                    let x = choose|x: int| 0 <= x < r@.len() && r@[x]@ == k;
                    if x < prev.len() {
                        assert(text_set(prev).contains(k));
                        let y = choose|y: int| 0 <= y < cur.len() && cur[y]@ == k;
                        assert(next[y]@ == k);
                    } else {
                        assert(next[i as int]@ == k);
                    }
                }
                if text_set(next).contains(k) {
                    let y = choose|y: int| 0 <= y < next.len() && next[y]@ == k;
                    if y < i {
                        assert(cur[y]@ == k);
                        assert(text_set(cur).contains(k));
                        let x = choose|x: int| 0 <= x < prev.len() && prev[x]@ == k;
                        assert(r@[x]@ == k);
                    } else if present {
                        let x = choose|x: int| 0 <= x < prev.len() && prev[x]@ == k;
                        assert(r@[x]@ == k);
                    } else {
                        assert(r@[prev.len() as int]@ == k);
                    }
                }
            }
            assert(text_set(r@) =~= text_set(next));
            if !present {
                assert forall|x: int, y: int| 0 <= x < y < r@.len() implies r@[x]@ != r@[y]@ by {
                    if y == prev.len() {
                        assert(r@[x] == prev[x]);
                        assert(text_set(prev).contains(prev[x]@));
                    }
                }
            }
        }
        i = i + 1;
    }
    proof {
        assert(v@.subrange(0, v@.len() as int) =~= v@);
    }
    r
}

/// Whether no text occurs twice in `v`.
pub fn all_distinct(v: &Vec<String>) -> (r: bool)
    ensures
        r == distinct(v@),
{
    let mut i: usize = 0;
    while i < v.len()
        invariant
            i <= v@.len(),
            forall|a: int, b: int| 0 <= a < b < v@.len() && a < i ==> v@[a]@ != v@[b]@,
        decreases v.len() - i,
    {
        let mut j: usize = i + 1;
        while j < v.len()
            invariant
                i < v@.len(),
                i + 1 <= j <= v@.len(),
                forall|a: int, b: int| 0 <= a < b < v@.len() && a < i ==> v@[a]@ != v@[b]@,
                forall|b: int| i < b < j ==> v@[i as int]@ != v@[b]@,
            decreases v.len() - j,
        {
            if v[i] == v[j] {
                return false;
            }
            j = j + 1;
        }
        i = i + 1;
    }
    true
}

} // verus!
