//! Index-label algebra: membership, first occurrences, order-preserving
//! deduplication, and the size dictionary that maps every label to its
//! dimension size.

use vstd::prelude::*;

verus! {

/// Whether `c` occurs in `s`.
pub open spec fn contains_char(s: Seq<char>, c: char) -> bool {
    exists|i: int| 0 <= i < s.len() && s[i] == c
}

/// Position of the first occurrence of `c` in `s`, or `-1`.
pub open spec fn first_pos(s: Seq<char>, c: char) -> int
    decreases s.len(),
{
    if s.len() == 0 {
        -1
    } else if s[0] == c {
        0
    } else {
        let r = first_pos(s.drop_first(), c);
        if r < 0 {
            -1
        } else {
            r + 1
        }
    }
}

pub proof fn lemma_first_pos(s: Seq<char>, c: char)
    ensures
        (first_pos(s, c) >= 0) <==> contains_char(s, c),
        first_pos(s, c) >= 0 ==> first_pos(s, c) < s.len() && s[first_pos(s, c)] == c,
        forall|j: int| 0 <= j < first_pos(s, c) ==> s[j] != c,
        first_pos(s, c) >= -1,
    decreases s.len(),
{
    if s.len() > 0 && s[0] != c {
        lemma_first_pos(s.drop_first(), c);
        assert(forall|i: int| 0 <= i < s.drop_first().len() ==> s.drop_first()[i] == s[i + 1]);
        if contains_char(s, c) {
            let w = choose|i: int| 0 <= i < s.len() && s[i] == c;
            assert(s.drop_first()[w - 1] == c);
        }
        assert forall|j: int| 0 <= j < first_pos(s, c) implies s[j] != c by {
            if j > 0 {
                assert(s.drop_first()[j - 1] == s[j]);
            }
        }
    }
}

/// `labels` extended by the unseen characters of `s`, in order of first
/// occurrence.
pub open spec fn dedup_append(labels: Seq<char>, s: Seq<char>) -> Seq<char>
    decreases s.len(),
{
    if s.len() == 0 {
        labels
    } else {
        let prev = dedup_append(labels, s.drop_last());
        if contains_char(prev, s.last()) {
            prev
        } else {
            prev.push(s.last())
        }
    }
}

/// The distinct characters of a list of label strings, in order of first
/// occurrence.
pub open spec fn dedup_all(subs: Seq<Seq<char>>) -> Seq<char>
    decreases subs.len(),
{
    if subs.len() == 0 {
        Seq::empty()
    } else {
        dedup_append(dedup_all(subs.drop_last()), subs.last())
    }
}

pub proof fn lemma_dedup_append_facts(labels: Seq<char>, s: Seq<char>)
    ensures
        forall|c: char| contains_char(dedup_append(labels, s), c) <==> (contains_char(labels, c)
            || contains_char(s, c)),
        labels.len() <= dedup_append(labels, s).len(),
        forall|i: int| 0 <= i < labels.len() ==> dedup_append(labels, s)[i] == labels[i],
    decreases s.len(),
{
    if s.len() > 0 {
        lemma_dedup_append_facts(labels, s.drop_last());
        let prev = dedup_append(labels, s.drop_last());
        assert forall|c: char| contains_char(dedup_append(labels, s), c) implies (contains_char(labels, c)
            || contains_char(s, c)) by {
            if contains_char(dedup_append(labels, s), c) {
                let w = choose|i: int|
                    0 <= i < dedup_append(labels, s).len() && dedup_append(labels, s)[i] == c;
                if w < prev.len() {
                    assert(contains_char(prev, c));
                    if contains_char(s.drop_last(), c) {
                        let v = choose|i: int| 0 <= i < s.drop_last().len() && s.drop_last()[i] == c;
                        assert(s[v] == c);
                    }
                } else {
                    assert(c == s.last());
                }
            }
        }
        assert forall|c: char| (contains_char(labels, c) || contains_char(s, c)) implies contains_char(
            dedup_append(labels, s),
            c,
        ) by {
            if contains_char(labels, c) || contains_char(s, c) {
                if contains_char(s, c) && !contains_char(labels, c) {
                    let v = choose|i: int| 0 <= i < s.len() && s[i] == c;
                    if v < s.len() - 1 {
                        assert(s.drop_last()[v] == c);
                        assert(contains_char(prev, c));
                        let w = choose|i: int| 0 <= i < prev.len() && prev[i] == c;
                        if !contains_char(prev, s.last()) {
                            assert(prev.push(s.last())[w] == c);
                        }
                    } else {
                        if contains_char(prev, c) {
                            let w = choose|i: int| 0 <= i < prev.len() && prev[i] == c;
                            if !contains_char(prev, s.last()) {
                                assert(prev.push(s.last())[w] == c);
                            }
                        } else {
                            assert(dedup_append(labels, s) == prev.push(c));
                            assert(prev.push(c)[prev.len() as int] == c);
                        }
                    }
                } else {
                    let w = choose|i: int| 0 <= i < labels.len() && labels[i] == c;
                    assert(dedup_append(labels, s)[w] == c);
                }
            }
        }
    }
}

/// Dimension size of the label `c`: the size recorded at its first
/// occurrence over the subscripts, scanned operand by operand.
pub open spec fn label_size(subs: Seq<Seq<char>>, shapes: Seq<Seq<isize>>, c: char) -> int
    decreases subs.len(),
{
    if subs.len() == 0 {
        -1
    } else if contains_char(subs[0], c) {
        shapes[0][first_pos(subs[0], c)] as int
    } else {
        label_size(subs.drop_first(), shapes.drop_first(), c)
    }
}

/// As many subscripts as shapes.
pub open spec fn sd_count_ok(subs: Seq<Seq<char>>, shapes: Seq<Seq<isize>>) -> bool {
    subs.len() == shapes.len()
}

/// Each subscript matches its tensor's dimensionality.
pub open spec fn sd_rank_ok(subs: Seq<Seq<char>>, shapes: Seq<Seq<isize>>) -> bool {
    forall|t: int| 0 <= t < subs.len() ==> (#[trigger] subs[t]).len() == shapes[t].len()
}

/// No negative dimension size.
pub open spec fn sd_nonneg(subs: Seq<Seq<char>>, shapes: Seq<Seq<isize>>) -> bool {
    forall|t: int, j: int|
        0 <= t < shapes.len() && 0 <= j < shapes[t].len() ==> #[trigger] shapes[t][j] >= 0
}

/// Every occurrence of a label carries that label's size.
pub open spec fn sd_consistent(subs: Seq<Seq<char>>, shapes: Seq<Seq<isize>>) -> bool {
    forall|t: int, j: int|
        0 <= t < subs.len() && 0 <= j < subs[t].len() ==> #[trigger] shapes[t][j] as int == label_size(
            subs,
            shapes,
            subs[t][j],
        )
}

/// The subscripts and shapes describe one consistent size dictionary.
pub open spec fn sd_ok(subs: Seq<Seq<char>>, shapes: Seq<Seq<isize>>) -> bool {
    &&& sd_count_ok(subs, shapes)
    &&& sd_rank_ok(subs, shapes)
    &&& sd_nonneg(subs, shapes)
    &&& sd_consistent(subs, shapes)
}

/// Every character of `s` occurs in `t1` or in `t2`.
pub open spec fn covered_by2(s: Seq<char>, t1: Seq<char>, t2: Seq<char>) -> bool {
    forall|j: int| 0 <= j < s.len() ==> contains_char(t1, #[trigger] s[j]) || contains_char(t2, s[j])
}

/// Every character of `s` occurs in `t`.
pub open spec fn covered_by(s: Seq<char>, t: Seq<char>) -> bool {
    forall|j: int| 0 <= j < s.len() ==> contains_char(t, #[trigger] s[j])
}

/// The views of a list of character vectors.
pub open spec fn char_views(v: Seq<Vec<char>>) -> Seq<Seq<char>> {
    Seq::new(v.len(), |i: int| v[i]@)
}

/// The views of a list of shape vectors.
pub open spec fn shape_views(v: Seq<Vec<isize>>) -> Seq<Seq<isize>> {
    Seq::new(v.len(), |i: int| v[i]@)
}

/// The keys of an association list.
pub open spec fn keys_of(m: Seq<(char, isize)>) -> Seq<char> {
    Seq::new(m.len(), |i: int| m[i].0)
}

pub proof fn lemma_dedup_all_contains(subs: Seq<Seq<char>>)
    ensures
        forall|c: char|
            contains_char(dedup_all(subs), c) <==> exists|t: int|
                0 <= t < subs.len() && contains_char(#[trigger] subs[t], c),
    decreases subs.len(),
{
    if subs.len() > 0 {
        lemma_dedup_all_contains(subs.drop_last());
        lemma_dedup_append_facts(dedup_all(subs.drop_last()), subs.last());
        assert forall|c: char| contains_char(dedup_all(subs), c) implies exists|t: int|
            0 <= t < subs.len() && contains_char(#[trigger] subs[t], c) by {
            if contains_char(dedup_all(subs.drop_last()), c) {
                let t = choose|t: int|
                    0 <= t < subs.drop_last().len() && contains_char(#[trigger] subs.drop_last()[t], c);
                assert(contains_char(subs[t], c));
            } else {
                assert(contains_char(subs.last(), c));
                assert(contains_char(subs[subs.len() - 1], c));
            }
        }
        assert forall|c: char|
            (exists|t: int| 0 <= t < subs.len() && contains_char(#[trigger] subs[t], c)) implies contains_char(
            dedup_all(subs),
            c,
        ) by {
            let t = choose|t: int| 0 <= t < subs.len() && contains_char(#[trigger] subs[t], c);
            if t < subs.len() - 1 {
                assert(subs.drop_last()[t] == subs[t]);
                assert(contains_char(dedup_all(subs.drop_last()), c));
            } else {
                assert(contains_char(subs.last(), c));
            }
        }
    }
}

/// When `(t, j)` is the very first occurrence of `c`, the size dictionary
/// records `shapes[t][j]` for `c`.
pub proof fn lemma_label_size_first(
    subs: Seq<Seq<char>>,
    shapes: Seq<Seq<isize>>,
    t: int,
    j: int,
    c: char,
)
    requires
        subs.len() == shapes.len(),
        0 <= t < subs.len(),
        0 <= j < subs[t].len(),
        j < shapes[t].len(),
        subs[t][j] == c,
        forall|u: int| 0 <= u < t ==> !contains_char(#[trigger] subs[u], c),
        forall|i: int| 0 <= i < j ==> subs[t][i] != c,
    ensures
        label_size(subs, shapes, c) == shapes[t][j] as int,
    decreases t,
{
    if t == 0 {
        lemma_first_pos(subs[0], c);
        let fp = first_pos(subs[0], c);
        assert(fp >= 0);
        assert(fp <= j);
        assert(fp == j);
    } else {
        assert(!contains_char(subs[0], c));
        assert(subs.drop_first()[t - 1] == subs[t]);
        assert(shapes.drop_first()[t - 1] == shapes[t]);
        assert forall|u: int| 0 <= u < t - 1 implies !contains_char(
            #[trigger] subs.drop_first()[u],
            c,
        ) by {
            assert(subs.drop_first()[u] == subs[u + 1]);
        }
        lemma_label_size_first(subs.drop_first(), shapes.drop_first(), t - 1, j, c);
    }
}

/// Whether `c` occurs in the vector.
pub fn vec_contains(v: &Vec<char>, c: char) -> (b: bool)
    ensures
        b == contains_char(v@, c),
{
    let n = v.len();
    let mut i: usize = 0;
    while i < n
        invariant
            0 <= i <= n,
            n == v@.len(),
            forall|j: int| 0 <= j < i ==> v@[j] != c,
        decreases n - i,
    {
        if v[i] == c {
            return true;
        }
        i += 1;
    }
    false
}

/// First occurrence of `c` in the vector.
pub fn vec_first_pos(v: &Vec<char>, c: char) -> (r: Option<usize>)
    ensures
        r matches Some(i) ==> i as int == first_pos(v@, c),
        r is Some <==> contains_char(v@, c),
{
    proof {
        lemma_first_pos(v@, c);
    }
    let n = v.len();
    let mut i: usize = 0;
    while i < n
        invariant
            0 <= i <= n,
            n == v@.len(),
            forall|j: int| 0 <= j < i ==> v@[j] != c,
        decreases n - i,
    {
        if v[i] == c {
            proof {
                lemma_first_pos(v@, c);
            }
            return Some(i);
        }
        i += 1;
    }
    None
}

/// Append the unseen characters of `s` to `labels`.
pub fn dedup_extend(labels: &mut Vec<char>, s: &Vec<char>)
    ensures
        final(labels)@ == dedup_append(old(labels)@, s@),
{
    let n = s.len();
    let mut i: usize = 0;
    while i < n
        invariant
            0 <= i <= n,
            n == s@.len(),
            labels@ == dedup_append(old(labels)@, s@.take(i as int)),
        decreases n - i,
    {
        proof {
            assert(s@.take(i as int + 1).drop_last() =~= s@.take(i as int));
            assert(s@.take(i as int + 1).last() == s@[i as int]);
        }
        if !vec_contains(labels, s[i]) {
            let c = s[i];
            labels.push(c);
        }
        i += 1;
    }
    proof {
        assert(s@.take(n as int) =~= s@);
    }
}

/// Every character of `s` occurs in `t1` or in `t2`.
pub fn all_covered2(s: &Vec<char>, t1: &Vec<char>, t2: &Vec<char>) -> (b: bool)
    ensures
        b == covered_by2(s@, t1@, t2@),
{
    let n = s.len();
    let mut i: usize = 0;
    while i < n
        invariant
            0 <= i <= n,
            n == s@.len(),
            forall|j: int|
                0 <= j < i ==> contains_char(t1@, #[trigger] s@[j]) || contains_char(t2@, s@[j]),
        decreases n - i,
    {
        if !vec_contains(t1, s[i]) && !vec_contains(t2, s[i]) {
            return false;
        }
        i += 1;
    }
    true
}

/// Every character of `s` occurs in `t`.
pub fn all_covered(s: &Vec<char>, t: &Vec<char>) -> (b: bool)
    ensures
        b == covered_by(s@, t@),
{
    let n = s.len();
    let mut i: usize = 0;
    while i < n
        invariant
            0 <= i <= n,
            n == s@.len(),
            forall|j: int| 0 <= j < i ==> contains_char(t@, #[trigger] s@[j]),
        decreases n - i,
    {
        if !vec_contains(t, s[i]) {
            return false;
        }
        i += 1;
    }
    true
}

/// First value recorded for the key `c` in an association list.
pub fn dict_lookup(m: &Vec<(char, isize)>, c: char) -> (r: Option<isize>)
    ensures
        r is Some <==> contains_char(keys_of(m@), c),
        r matches Some(v) ==> exists|i: int|
            0 <= i < m@.len() && m@[i].0 == c && #[trigger] m@[i].1 == v,
{
    let n = m.len();
    let mut i: usize = 0;
    while i < n
        invariant
            0 <= i <= n,
            n == m@.len(),
            forall|j: int| 0 <= j < i ==> (#[trigger] m@[j]).0 != c,
        decreases n - i,
    {
        let e = m[i];
        if e.0 == c {
            proof {
                assert(keys_of(m@)[i as int] == c);
            }
            return Some(e.1);
        }
        i += 1;
    }
    proof {
        assert forall|j: int| 0 <= j < keys_of(m@).len() implies keys_of(m@)[j] != c by {
            assert(keys_of(m@)[j] == m@[j].0);
        }
    }
    None
}

/// Build the size dictionary for a list of subscripts and shapes: checks
/// the counts, the ranks, the sign of every dimension and the consistency
/// of repeated labels, and records each label's size at first occurrence.
pub fn size_dict_chars(subs: &Vec<Vec<char>>, shapes: &Vec<Vec<isize>>) -> (r: Result<
    Vec<(char, isize)>,
    crate::TblisError,
>)
    ensures
        r is Ok <==> sd_ok(char_views(subs@), shape_views(shapes@)),
        r matches Ok(m) ==> keys_of(m@) == dedup_all(char_views(subs@)),
        r matches Ok(m) ==> forall|i: int|
            0 <= i < m@.len() ==> #[trigger] m@[i].1 as int == label_size(
                char_views(subs@),
                shape_views(shapes@),
                m@[i].0,
            ),
        r matches Ok(m) ==> forall|i: int| 0 <= i < m@.len() ==> (#[trigger] m@[i]).1 >= 0,
        r matches Err(e) ==> (e == crate::TblisError::CountMismatch || e
            == crate::TblisError::RankMismatch || e == crate::TblisError::NegativeDim || e
            == crate::TblisError::SizeConflict),
        r == Err::<Vec<(char, isize)>, crate::TblisError>(crate::TblisError::CountMismatch)
            <==> subs@.len() != shapes@.len(),
{
    let ghost gsubs = char_views(subs@);
    let ghost gshapes = shape_views(shapes@);
    if subs.len() != shapes.len() {
        return Err(crate::TblisError::CountMismatch);
    }
    let nt = subs.len();
    let mut m: Vec<(char, isize)> = Vec::new();
    let mut t: usize = 0;
    while t < nt
        invariant
            0 <= t <= nt,
            nt == subs@.len(),
            subs@.len() == shapes@.len(),
            gsubs == char_views(subs@),
            gshapes == shape_views(shapes@),
            forall|u: int| 0 <= u < t ==> (#[trigger] gsubs[u]).len() == gshapes[u].len(),
            forall|u: int, i: int|
                0 <= u < t && 0 <= i < gshapes[u].len() ==> #[trigger] gshapes[u][i] >= 0,
            forall|u: int, i: int|
                0 <= u < t && 0 <= i < gsubs[u].len() ==> #[trigger] gshapes[u][i] as int
                    == label_size(gsubs, gshapes, gsubs[u][i]),
            keys_of(m@) == dedup_all(gsubs.take(t as int)),
            forall|i: int|
                0 <= i < m@.len() ==> #[trigger] m@[i].1 as int == label_size(
                    gsubs,
                    gshapes,
                    m@[i].0,
                ),
            forall|i: int| 0 <= i < m@.len() ==> (#[trigger] m@[i]).1 >= 0,
        decreases nt - t,
    {
        if subs[t].len() != shapes[t].len() {
            proof {
                assert((gsubs[t as int]).len() != gshapes[t as int].len());
                assert(!sd_rank_ok(gsubs, gshapes));
            }
            return Err(crate::TblisError::RankMismatch);
        }
        let nj = subs[t].len();
        let mut j: usize = 0;
        proof {
            assert(gsubs.take(t as int + 1).drop_last() =~= gsubs.take(t as int));
            assert(gsubs[t as int].take(0) =~= Seq::<char>::empty());
        }
        while j < nj
            invariant
                0 <= j <= nj,
                0 <= t < nt,
                nt == subs@.len(),
                subs@.len() == shapes@.len(),
                gsubs == char_views(subs@),
                gshapes == shape_views(shapes@),
                nj == gsubs[t as int].len(),
                gsubs[t as int].len() == gshapes[t as int].len(),
                forall|u: int| 0 <= u < t ==> (#[trigger] gsubs[u]).len() == gshapes[u].len(),
                forall|u: int, i: int|
                    0 <= u < t && 0 <= i < gshapes[u].len() ==> #[trigger] gshapes[u][i] >= 0,
                forall|u: int, i: int|
                    0 <= u < t && 0 <= i < gsubs[u].len() ==> #[trigger] gshapes[u][i] as int
                        == label_size(gsubs, gshapes, gsubs[u][i]),
                forall|i: int| 0 <= i < j ==> #[trigger] gshapes[t as int][i] >= 0,
                forall|i: int|
                    0 <= i < j ==> #[trigger] gshapes[t as int][i] as int == label_size(
                        gsubs,
                        gshapes,
                        gsubs[t as int][i],
                    ),
                keys_of(m@) == dedup_append(
                    dedup_all(gsubs.take(t as int)),
                    gsubs[t as int].take(j as int),
                ),
                forall|i: int|
                    0 <= i < m@.len() ==> #[trigger] m@[i].1 as int == label_size(
                        gsubs,
                        gshapes,
                        m@[i].0,
                    ),
                forall|i: int| 0 <= i < m@.len() ==> (#[trigger] m@[i]).1 >= 0,
            decreases nj - j,
        {
            let c = subs[t][j];
            let s = shapes[t][j];
            proof {
                assert(gsubs[t as int][j as int] == c);
                assert(gshapes[t as int][j as int] == s);
                assert(gsubs[t as int].take(j as int + 1).drop_last() =~= gsubs[t as int].take(
                    j as int,
                ));
                assert(gsubs[t as int].take(j as int + 1).last() == c);
            }
            if s < 0 {
                proof {
                    assert(gshapes[t as int][j as int] < 0);
                    assert(!sd_nonneg(gsubs, gshapes));
                }
                return Err(crate::TblisError::NegativeDim);
            }
            match dict_lookup(&m, c) {
                Option::Some(v) => {
                    if v != s {
                        proof {
                            let i = choose|i: int|
                                0 <= i < m@.len() && m@[i].0 == c && #[trigger] m@[i].1 == v;
                            assert(v as int == label_size(gsubs, gshapes, c));
                            assert(gshapes[t as int][j as int] as int != label_size(
                                gsubs,
                                gshapes,
                                gsubs[t as int][j as int],
                            ));
                            assert(!sd_consistent(gsubs, gshapes));
                        }
                        return Err(crate::TblisError::SizeConflict);
                    }
                },
                Option::None => {
                    proof {
                        let prevkeys = keys_of(m@);
                        lemma_dedup_append_facts(
                            dedup_all(gsubs.take(t as int)),
                            gsubs[t as int].take(j as int),
                        );
                        lemma_dedup_all_contains(gsubs.take(t as int));
                        assert(!contains_char(dedup_all(gsubs.take(t as int)), c));
                        assert(!contains_char(gsubs[t as int].take(j as int), c));
                        assert forall|u: int| 0 <= u < t implies !contains_char(
                            #[trigger] gsubs[u],
                            c,
                        ) by {
                            assert(gsubs.take(t as int)[u] == gsubs[u]);
                            if contains_char(gsubs[u], c) {
                                assert(exists|tt: int|
                                    0 <= tt < gsubs.take(t as int).len() && contains_char(
                                        #[trigger] gsubs.take(t as int)[tt],
                                        c,
                                    ));
                            }
                        }
                        assert forall|i: int| 0 <= i < j implies gsubs[t as int][i] != c by {
                            assert(gsubs[t as int].take(j as int)[i] == gsubs[t as int][i]);
                        }
                        lemma_label_size_first(gsubs, gshapes, t as int, j as int, c);
                    }
                    let ghost mprev = m@;
                    m.push((c, s));
                    proof {
                        assert(keys_of(m@) =~= keys_of(mprev).push(c));
                    }
                },
            }
            proof {
                // the key list advances by one processed position
                let dprev = dedup_append(
                    dedup_all(gsubs.take(t as int)),
                    gsubs[t as int].take(j as int),
                );
                assert(keys_of(m@) == dedup_append(
                    dedup_all(gsubs.take(t as int)),
                    gsubs[t as int].take(j as int + 1),
                ));
            }
            j += 1;
        }
        proof {
            assert(gsubs[t as int].take(nj as int) =~= gsubs[t as int]);
            assert(gsubs.take(t as int + 1).drop_last() =~= gsubs.take(t as int));
            assert(gsubs.take(t as int + 1).last() == gsubs[t as int]);
        }
        t += 1;
    }
    proof {
        assert(gsubs.take(nt as int) =~= gsubs);
    }
    Ok(m)
}

/// Collect the characters of a string slice.
pub fn str_chars(s: &str) -> (r: Vec<char>)
    ensures
        r@ == s@,
{
    let n = s.unicode_len();
    let mut r: Vec<char> = Vec::new();
    let mut i: usize = 0;
    while i < n
        invariant
            0 <= i <= n,
            n == s@.len(),
            r@ == s@.take(i as int),
        decreases n - i,
    {
        let c = s.get_char(i);
        r.push(c);
        proof {
            assert(r@ =~= s@.take(i as int + 1));
        }
        i += 1;
    }
    proof {
        assert(s@.take(n as int) =~= s@);
    }
    r
}

} // verus!
