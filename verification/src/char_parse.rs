//! Mapping of index labels to the single-byte alphabet that the native
//! primitive layer accepts.
//!
//! Rules, in order:
//! 1. all labels ASCII: each is its own code;
//! 2. at most 62 distinct labels: they are mapped into `[a-zA-Z0-9]`, in
//!    ascending order of the labels;
//! 3. at most 128 distinct labels: each is mapped to its rank among the
//!    labels in ascending order;
//! 4. otherwise the call fails.

use vstd::prelude::*;

use crate::TblisError;
use crate::labels::char_views;
use crate::labels::contains_char;
use crate::labels::dedup_all;
use crate::labels::dedup_extend;
use crate::labels::first_pos;
use crate::labels::lemma_dedup_all_contains;
use crate::labels::lemma_first_pos;
use crate::labels::str_chars;
use crate::labels::vec_first_pos;

verus! {

/// Every label of every subscript is an ASCII character.
pub open spec fn is_ascii_char(c: char) -> bool {
    (c as u32) < 128
}

/// Every label of every subscript is an ASCII character.
pub open spec fn all_ascii(subs: Seq<Seq<char>>) -> bool {
    forall|t: int, j: int|
        0 <= t < subs.len() && 0 <= j < subs[t].len() ==> is_ascii_char(#[trigger] subs[t][j])
}

/// The labels fit the primitive layer's alphabet.
pub open spec fn cp_ok(subs: Seq<Seq<char>>) -> bool {
    all_ascii(subs) || dedup_all(subs).len() <= 128
}

/// The `[a-zA-Z0-9]` alphabet, by rank.
pub open spec fn map62(n: int) -> int {
    if n < 26 {
        97 + n
    } else if n < 52 {
        65 + (n - 26)
    } else {
        48 + (n - 52)
    }
}

/// `c` inserted into an ascending list of distinct characters.
pub open spec fn sorted_insert(s: Seq<char>, c: char) -> Seq<char>
    decreases s.len(),
{
    if s.len() == 0 {
        seq![c]
    } else if c == s[0] {
        s
    } else if c < s[0] {
        seq![c] + s
    } else {
        seq![s[0]] + sorted_insert(s.drop_first(), c)
    }
}

/// The characters of `s`, ascending and without duplicates.
pub open spec fn sorted_of(s: Seq<char>) -> Seq<char>
    decreases s.len(),
{
    if s.len() == 0 {
        Seq::empty()
    } else {
        sorted_insert(sorted_of(s.drop_last()), s.last())
    }
}

/// The distinct labels of the subscripts, ascending.
pub open spec fn sorted_labels(subs: Seq<Seq<char>>) -> Seq<char> {
    sorted_of(dedup_all(subs))
}

/// Code assigned to the label `c` under the rules above.
pub open spec fn code_of(subs: Seq<Seq<char>>, c: char) -> int {
    if all_ascii(subs) {
        c as u32 as int
    } else if dedup_all(subs).len() <= 62 {
        map62(first_pos(sorted_labels(subs), c))
    } else {
        first_pos(sorted_labels(subs), c)
    }
}

pub proof fn lemma_sorted_insert_facts(s: Seq<char>, c: char)
    ensures
        forall|x: char|
            contains_char(sorted_insert(s, c), x) <==> (x == c || contains_char(s, x)),
        sorted_insert(s, c).len() <= s.len() + 1,
    decreases s.len(),
{
    if s.len() == 0 || c == s[0] || c < s[0] {
        assert forall|x: char|
            contains_char(sorted_insert(s, c), x) <==> (x == c || contains_char(s, x)) by {
            if s.len() == 0 {
                assert(sorted_insert(s, c) == seq![c]);
                if contains_char(sorted_insert(s, c), x) {
                    let w = choose|i: int|
                        0 <= i < sorted_insert(s, c).len() && sorted_insert(s, c)[i] == x;
                    assert(x == c);
                } else {
                }
                if x == c {
                    assert(sorted_insert(s, c)[0] == c);
                }
            } else if c == s[0] {
                if x == c {
                    assert(s[0] == x);
                }
            } else {
                let t = seq![c] + s;
                if contains_char(t, x) {
                    let w = choose|i: int| 0 <= i < t.len() && t[i] == x;
                    if w == 0 {
                        assert(x == c);
                    } else {
                        assert(s[w - 1] == x);
                    }
                }
                if x == c {
                    assert(t[0] == x);
                }
                if contains_char(s, x) {
                    let w = choose|i: int| 0 <= i < s.len() && s[i] == x;
                    assert(t[w + 1] == x);
                }
            }
        }
    } else {
        lemma_sorted_insert_facts(s.drop_first(), c);
        let t = seq![s[0]] + sorted_insert(s.drop_first(), c);
        assert(sorted_insert(s, c) == t);
        assert forall|x: char| contains_char(t, x) implies (x == c || contains_char(s, x)) by {
            let w = choose|i: int| 0 <= i < t.len() && t[i] == x;
            if w == 0 {
                assert(s[0] == x);
            } else {
                assert(t[w] == sorted_insert(s.drop_first(), c)[w - 1]);
                assert(sorted_insert(s.drop_first(), c)[w - 1] == x);
                assert(0 <= w - 1 < sorted_insert(s.drop_first(), c).len());
                assert(contains_char(sorted_insert(s.drop_first(), c), x));
                if contains_char(s.drop_first(), x) {
                    let v = choose|i: int|
                        0 <= i < s.drop_first().len() && s.drop_first()[i] == x;
                    assert(s[v + 1] == x);
                }
            }
        }
        assert forall|x: char| (x == c || contains_char(s, x)) implies contains_char(t, x) by {
            if x == c || contains_char(s, x) {
                if contains_char(s, x) {
                    let w = choose|i: int| 0 <= i < s.len() && s[i] == x;
                    if w == 0 {
                        assert(t[0] == x);
                    } else {
                        assert(s.drop_first()[w - 1] == x);
                        assert(contains_char(s.drop_first(), x));
                        assert(contains_char(sorted_insert(s.drop_first(), c), x));
                        let v = choose|i: int|
                            0 <= i < sorted_insert(s.drop_first(), c).len() && sorted_insert(
                                s.drop_first(),
                                c,
                            )[i] == x;
                        assert(t[v + 1] == x);
                    }
                } else {
                    let d = contains_char(s.drop_first(), x);
                    assert(contains_char(sorted_insert(s.drop_first(), c), x));
                    let v = choose|i: int|
                        0 <= i < sorted_insert(s.drop_first(), c).len() && sorted_insert(
                            s.drop_first(),
                            c,
                        )[i] == x;
                    assert(t[v + 1] == x);
                }
            }
        }
    }
}

pub proof fn lemma_sorted_of_facts(s: Seq<char>)
    ensures
        forall|x: char| contains_char(sorted_of(s), x) <==> contains_char(s, x),
        sorted_of(s).len() <= s.len(),
    decreases s.len(),
{
    if s.len() > 0 {
        lemma_sorted_of_facts(s.drop_last());
        lemma_sorted_insert_facts(sorted_of(s.drop_last()), s.last());
        assert forall|x: char| contains_char(sorted_of(s), x) implies contains_char(s, x) by {
            if x == s.last() {
                assert(s[s.len() - 1] == x);
            } else {
                assert(contains_char(s.drop_last(), x));
                let w = choose|i: int| 0 <= i < s.drop_last().len() && s.drop_last()[i] == x;
                assert(s[w] == x);
            }
        }
        assert(sorted_of(s) == sorted_insert(sorted_of(s.drop_last()), s.last()));
        assert forall|x: char| contains_char(s, x) implies contains_char(sorted_of(s), x) by {
            let w = choose|i: int| 0 <= i < s.len() && s[i] == x;
            if w < s.len() - 1 {
                assert(s.drop_last()[w] == x);
                assert(contains_char(s.drop_last(), x));
                assert(contains_char(sorted_of(s.drop_last()), x));
                assert(contains_char(sorted_insert(sorted_of(s.drop_last()), s.last()), x));
            } else {
                assert(x == s.last());
                let d = contains_char(sorted_of(s.drop_last()), x);
                assert(contains_char(sorted_insert(sorted_of(s.drop_last()), s.last()), x));
            }
        }
    }
}

/// `c` inserted into an ascending vector at its position, matching the
/// recursive specification.
proof fn lemma_sorted_insert_at(s: Seq<char>, c: char, p: int)
    requires
        0 <= p <= s.len(),
        forall|i: int| 0 <= i < p ==> s[i] < c,
        p < s.len() ==> !(s[p] < c),
    ensures
        (p < s.len() && s[p] == c) ==> sorted_insert(s, c) == s,
        !(p < s.len() && s[p] == c) ==> sorted_insert(s, c) == s.insert(p, c),
    decreases s.len(),
{
    if s.len() == 0 {
        assert(sorted_insert(s, c) =~= s.insert(0, c));
    } else if p == 0 {
        if s[0] == c {
        } else {
            assert(c < s[0]);
            assert(sorted_insert(s, c) =~= s.insert(0, c));
        }
    } else {
        assert(s[0] < c);
        assert forall|i: int| 0 <= i < p - 1 implies s.drop_first()[i] < c by {
            assert(s.drop_first()[i] == s[i + 1]);
        }
        if p - 1 < s.drop_first().len() {
            assert(s.drop_first()[p - 1] == s[p]);
        }
        lemma_sorted_insert_at(s.drop_first(), c, p - 1);
        if p < s.len() && s[p] == c {
            assert(sorted_insert(s, c) =~= s);
        } else {
            assert(sorted_insert(s, c) =~= s.insert(p, c));
        }
    }
}

/// Sort the distinct labels ascending.
fn sort_labels(labels: &Vec<char>) -> (r: Vec<char>)
    ensures
        r@ == sorted_of(labels@),
{
    let n = labels.len();
    let mut r: Vec<char> = Vec::new();
    let mut i: usize = 0;
    while i < n
        invariant
            0 <= i <= n,
            n == labels@.len(),
            r@ == sorted_of(labels@.take(i as int)),
            forall|a: int, b: int| 0 <= a < b < r@.len() ==> r@[a] < r@[b],
        decreases n - i,
    {
        proof {
            assert(labels@.take(i as int + 1).drop_last() =~= labels@.take(i as int));
            assert(labels@.take(i as int + 1).last() == labels@[i as int]);
        }
        let c = labels[i];
        let m = r.len();
        let mut p: usize = 0;
        while p < m && r[p] < c
            invariant
                0 <= p <= m,
                m == r@.len(),
                forall|q: int| 0 <= q < p ==> r@[q] < c,
            decreases m - p,
        {
            p += 1;
        }
        proof {
            lemma_sorted_insert_at(r@, c, p as int);
        }
        if p < m && r[p] == c {
        } else {
            r.insert(p, c);
        }
        i += 1;
    }
    proof {
        assert(labels@.take(n as int) =~= labels@);
    }
    r
}

/// The `[a-zA-Z0-9]` alphabet, by rank.
fn map62_exec(n: usize) -> (b: i8)
    requires
        n < 62,
    ensures
        b as int == map62(n as int),
{
    if n < 26 {
        (97 + n as u8) as i8
    } else if n < 52 {
        (65 + (n as u8 - 26)) as i8
    } else {
        (48 + (n as u8 - 52)) as i8
    }
}

/// Map index labels to the alphabet the primitive layer accepts: ASCII
/// labels keep their own code; otherwise up to 128 distinct labels are
/// renamed consistently and injectively, in ascending order of the labels.
pub fn char_parse(indices: &Vec<&str>) -> (r: Result<Vec<Vec<i8>>, TblisError>)
    ensures
        r is Ok <==> cp_ok(strs_views(indices@)),
        r matches Ok(out) ==> out@.len() == indices@.len(),
        r matches Ok(out) ==> forall|t: int|
            0 <= t < out@.len() ==> (#[trigger] out@[t])@.len() == indices@[t]@.len(),
        r matches Ok(out) ==> forall|t: int, j: int|
            0 <= t < out@.len() && 0 <= j < out@[t]@.len() ==> (#[trigger] out@[t]@[j]) as int
                == code_of(strs_views(indices@), indices@[t]@[j]),
        r is Err ==> r == Err::<Vec<Vec<i8>>, TblisError>(TblisError::TooManyLabels),
{
    let ghost gsubs = strs_views(indices@);
    let nt = indices.len();

    // collect the characters and the distinct labels
    let mut subs: Vec<Vec<char>> = Vec::new();
    let mut labels: Vec<char> = Vec::new();
    let mut t: usize = 0;
    while t < nt
        invariant
            0 <= t <= nt,
            nt == indices@.len(),
            gsubs == strs_views(indices@),
            subs@.len() == t,
            forall|u: int| 0 <= u < t ==> (#[trigger] subs@[u])@ == gsubs[u],
            labels@ == dedup_all(gsubs.take(t as int)),
        decreases nt - t,
    {
        let cs = str_chars(indices[t]);
        proof {
            assert(gsubs.take(t as int + 1).drop_last() =~= gsubs.take(t as int));
            assert(gsubs.take(t as int + 1).last() == gsubs[t as int]);
        }
        dedup_extend(&mut labels, &cs);
        subs.push(cs);
        t += 1;
    }
    proof {
        assert(gsubs.take(nt as int) =~= gsubs);
    }

    // rule 1: ASCII labels keep their own codes
    let mut ascii = true;
    let mut t2: usize = 0;
    while t2 < nt
        invariant
            0 <= t2 <= nt,
            nt == indices@.len(),
            gsubs == strs_views(indices@),
            subs@.len() == nt,
            forall|u: int| 0 <= u < nt ==> (#[trigger] subs@[u])@ == gsubs[u],
            ascii ==> forall|u: int, j: int|
                0 <= u < t2 && 0 <= j < gsubs[u].len() ==> is_ascii_char(#[trigger] gsubs[u][j]),
            !ascii ==> !all_ascii(gsubs),
        decreases nt - t2,
    {
        let nj = subs[t2].len();
        let mut j: usize = 0;
        while j < nj
            invariant
                0 <= j <= nj,
                0 <= t2 < nt,
                nt == indices@.len(),
                gsubs == strs_views(indices@),
                subs@.len() == nt,
                forall|u: int| 0 <= u < nt ==> (#[trigger] subs@[u])@ == gsubs[u],
                nj == gsubs[t2 as int].len(),
                ascii ==> forall|u: int, jj: int|
                    0 <= u < t2 && 0 <= jj < gsubs[u].len() ==> is_ascii_char(
                        #[trigger] gsubs[u][jj],
                    ),
                ascii ==> forall|jj: int|
                    0 <= jj < j ==> is_ascii_char(#[trigger] gsubs[t2 as int][jj]),
                !ascii ==> !all_ascii(gsubs),
            decreases nj - j,
        {
            let c = subs[t2][j];
            if c as u32 >= 128 {
                ascii = false;
            }
            j += 1;
        }
        t2 += 1;
    }

    if ascii {
        let mut out: Vec<Vec<i8>> = Vec::new();
        let mut t3: usize = 0;
        while t3 < nt
            invariant
                0 <= t3 <= nt,
                nt == indices@.len(),
                gsubs == strs_views(indices@),
                subs@.len() == nt,
                forall|u: int| 0 <= u < nt ==> (#[trigger] subs@[u])@ == gsubs[u],
                all_ascii(gsubs),
                out@.len() == t3,
                forall|u: int| 0 <= u < t3 ==> (#[trigger] out@[u])@.len() == gsubs[u].len(),
                forall|u: int, j: int|
                    0 <= u < t3 && 0 <= j < gsubs[u].len() ==> (#[trigger] out@[u]@[j]) as int
                        == code_of(gsubs, gsubs[u][j]),
            decreases nt - t3,
        {
            let nj = subs[t3].len();
            let mut row: Vec<i8> = Vec::new();
            let mut j: usize = 0;
            while j < nj
                invariant
                    0 <= j <= nj,
                    0 <= t3 < nt,
                    gsubs == strs_views(indices@),
                    subs@.len() == nt,
                    nt == indices@.len(),
                    forall|u: int| 0 <= u < nt ==> (#[trigger] subs@[u])@ == gsubs[u],
                    all_ascii(gsubs),
                    nj == gsubs[t3 as int].len(),
                    row@.len() == j,
                    forall|jj: int|
                        0 <= jj < j ==> (#[trigger] row@[jj]) as int == code_of(
                            gsubs,
                            gsubs[t3 as int][jj],
                        ),
                decreases nj - j,
            {
                let c = subs[t3][j];
                row.push((c as u32) as i8);
                j += 1;
            }
            out.push(row);
            t3 += 1;
        }
        return Ok(out);
    }

    if labels.len() > 128 {
        return Err(TblisError::TooManyLabels);
    }

    // rules 2 and 3: rename by rank among the labels in ascending order
    let small = labels.len() <= 62;
    let sorted = sort_labels(&labels);
    proof {
        lemma_dedup_all_contains(gsubs);
        lemma_sorted_of_facts(labels@);
    }
    let mut out: Vec<Vec<i8>> = Vec::new();
    let mut t4: usize = 0;
    while t4 < nt
        invariant
            0 <= t4 <= nt,
            nt == indices@.len(),
            gsubs == strs_views(indices@),
            subs@.len() == nt,
            forall|u: int| 0 <= u < nt ==> (#[trigger] subs@[u])@ == gsubs[u],
            labels@ == dedup_all(gsubs),
            labels@.len() <= 128,
            sorted@ == sorted_labels(gsubs),
            sorted@.len() <= labels@.len(),
            forall|c: char| contains_char(sorted@, c) <==> contains_char(labels@, c),
            !all_ascii(gsubs),
            small == (labels@.len() <= 62),
            forall|c: char|
                contains_char(dedup_all(gsubs), c) <==> exists|u: int|
                    0 <= u < gsubs.len() && contains_char(#[trigger] gsubs[u], c),
            out@.len() == t4,
            forall|u: int| 0 <= u < t4 ==> (#[trigger] out@[u])@.len() == gsubs[u].len(),
            forall|u: int, j: int|
                0 <= u < t4 && 0 <= j < gsubs[u].len() ==> (#[trigger] out@[u]@[j]) as int
                    == code_of(gsubs, gsubs[u][j]),
        decreases nt - t4,
    {
        let nj = subs[t4].len();
        let mut row: Vec<i8> = Vec::new();
        let mut j: usize = 0;
        while j < nj
            invariant
                0 <= j <= nj,
                0 <= t4 < nt,
                nt == indices@.len(),
                gsubs == strs_views(indices@),
                subs@.len() == nt,
                forall|u: int| 0 <= u < nt ==> (#[trigger] subs@[u])@ == gsubs[u],
                labels@ == dedup_all(gsubs),
                labels@.len() <= 128,
                sorted@ == sorted_labels(gsubs),
                sorted@.len() <= labels@.len(),
                forall|c: char| contains_char(sorted@, c) <==> contains_char(labels@, c),
                !all_ascii(gsubs),
                small == (labels@.len() <= 62),
                forall|c: char|
                    contains_char(dedup_all(gsubs), c) <==> exists|u: int|
                        0 <= u < gsubs.len() && contains_char(#[trigger] gsubs[u], c),
                nj == gsubs[t4 as int].len(),
                row@.len() == j,
                forall|jj: int|
                    0 <= jj < j ==> (#[trigger] row@[jj]) as int == code_of(
                        gsubs,
                        gsubs[t4 as int][jj],
                    ),
            decreases nj - j,
        {
            let c = subs[t4][j];
            proof {
                assert(contains_char(gsubs[t4 as int], c));
                assert(contains_char(dedup_all(gsubs), c));
                lemma_first_pos(sorted@, c);
            }
            let p = match vec_first_pos(&sorted, c) {
                Option::Some(p) => p,
                Option::None => {
                    proof {
                        assert(false);
                    }
                    0
                },
            };
            if small {
                row.push(map62_exec(p));
            } else {
                row.push(p as i8);
            }
            j += 1;
        }
        out.push(row);
        t4 += 1;
    }
    Ok(out)
}

/// The views of a list of string slices.
pub open spec fn strs_views(v: Seq<&str>) -> Seq<Seq<char>> {
    Seq::new(v.len(), |i: int| v[i]@)
}

/// Whether the labels of the given subscripts fit the primitive layer's
/// alphabet.
pub fn cp_check(subs: &Vec<Vec<char>>) -> (b: bool)
    ensures
        b == cp_ok(char_views(subs@)),
{
    let ghost gsubs = char_views(subs@);
    let nt = subs.len();
    let mut labels: Vec<char> = Vec::new();
    let mut ascii = true;
    let mut t: usize = 0;
    while t < nt
        invariant
            0 <= t <= nt,
            nt == subs@.len(),
            gsubs == char_views(subs@),
            labels@ == dedup_all(gsubs.take(t as int)),
            ascii ==> forall|u: int, j: int|
                0 <= u < t && 0 <= j < gsubs[u].len() ==> is_ascii_char(#[trigger] gsubs[u][j]),
            !ascii ==> !all_ascii(gsubs),
        decreases nt - t,
    {
        proof {
            assert(gsubs.take(t as int + 1).drop_last() =~= gsubs.take(t as int));
            assert(gsubs.take(t as int + 1).last() == gsubs[t as int]);
        }
        dedup_extend(&mut labels, &subs[t]);
        let nj = subs[t].len();
        let mut j: usize = 0;
        while j < nj
            invariant
                0 <= j <= nj,
                0 <= t < nt,
                nt == subs@.len(),
                gsubs == char_views(subs@),
                nj == gsubs[t as int].len(),
                ascii ==> forall|u: int, jj: int|
                    0 <= u < t && 0 <= jj < gsubs[u].len() ==> is_ascii_char(
                        #[trigger] gsubs[u][jj],
                    ),
                ascii ==> forall|jj: int|
                    0 <= jj < j ==> is_ascii_char(#[trigger] gsubs[t as int][jj]),
                !ascii ==> !all_ascii(gsubs),
            decreases nj - j,
        {
            if subs[t][j] as u32 >= 128 {
                ascii = false;
            }
            j += 1;
        }
        t += 1;
    }
    proof {
        assert(gsubs.take(nt as int) =~= gsubs);
    }
    ascii || labels.len() <= 128
}

} // verus!
