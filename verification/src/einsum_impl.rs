//! Einsum preparation and execution: the external path optimizer turns the
//! expression into an ordered list of contraction steps; the executor runs
//! them against the working set of live tensors.

use vstd::prelude::*;

use crate::TblisError;
use crate::containers::TblisTensor;
use crate::indexing::lemma_contig_cm;
use crate::indexing::lemma_contig_rm;
use crate::indexing::lemma_prod_eq_isize;
use crate::indexing::lemma_prod_isize_pos;
use crate::indexing::lemma_prod_isize_split;
use crate::indexing::checked_total;
use crate::indexing::prod_from;
use crate::indexing::prod_isize_from;
use crate::indexing::prod_isize_to;
use crate::indexing::shape_pos;
use crate::labels::contains_char;
use crate::labels::dedup_all;
use crate::labels::first_pos;
use crate::labels::lemma_first_pos;
use crate::labels::vec_first_pos;
use crate::labels::all_covered2;
use crate::labels::covered_by2;
use crate::tensor_ops::add_fold;
use crate::tensor_ops::add_spec;
use crate::tensor_ops::add_chars_f;
use crate::tensor_ops::add_ok;
use crate::tensor_ops::mult_ok;
use crate::tensor_ops::affine_fold;
use crate::tensor_ops::mult_chars_f;
use crate::tensor_ops::mult_spec;
use crate::tensor_ops::spec_dims;
use crate::tensor_ops::spec_pos;
use crate::tensor_ops::spec_stride_u;
use crate::tensor_ops::own_labels_of;
use crate::tensor_ops::clone_chars;
use crate::tensor_ops::codes_eq;
use crate::containers::TensorModel;

verus! {

/// Memory-limit hint handed to the path optimizer.
#[derive(Debug, Clone, Copy, PartialEq, Eq)]
pub enum TblisMemLimit {
    /// No limit on intermediate sizes.
    Unlimited,
    /// Intermediates may not exceed the largest input.
    MaxInput,
    /// Intermediates may not exceed the given element count.
    Bound(usize),
}

/// Normalized code of a strategy-token character: `_` and space read as
/// `-`, ASCII letters lowercase.
pub open spec fn strat_code(c: char) -> u32 {
    if c == '_' || c == ' ' {
        '-' as u32
    } else if 'A' <= c && c <= 'Z' {
        (c as u32 + 32) as u32
    } else {
        c as u32
    }
}

/// Normalized form of a strategy token.
pub open spec fn strat_name(s: Seq<char>) -> Seq<u32> {
    Seq::new(s.len(), |i: int| strat_code(s[i]))
}

/// The strategy tokens this crate accepts: the path optimizer's plain
/// strategies.  Parameterized forms (`dp-...`, `random-greedy-<n>`) are not
/// accepted, because the optimizer aborts on malformed parameters.
pub open spec fn known_strategy(s: Seq<char>) -> bool {
    ||| s == "random-greedy"@
    ||| strat_name(s) == strat_name("optimal"@)
    ||| strat_name(s) == strat_name("optimized"@)
    ||| strat_name(s) == strat_name("no-optimize"@)
    ||| strat_name(s) == strat_name("branch-all"@)
    ||| strat_name(s) == strat_name("branch-2"@)
    ||| strat_name(s) == strat_name("branch-1"@)
    ||| strat_name(s) == strat_name("greedy"@)
    ||| strat_name(s) == strat_name("eager"@)
    ||| strat_name(s) == strat_name("opportunistic"@)
    ||| strat_name(s) == strat_name("dp"@)
    ||| strat_name(s) == strat_name("dynamic-programming"@)
    ||| strat_name(s) == strat_name("auto"@)
    ||| strat_name(s) == strat_name("auto-hq"@)
}

/// Normalized codes of a strategy token.
fn strat_codes(s: &str) -> (v: Vec<u32>)
    ensures
        v@ == strat_name(s@),
{
    let n = s.unicode_len();
    let mut v: Vec<u32> = Vec::new();
    let mut i: usize = 0;
    while i < n
        invariant
            0 <= i <= n,
            n == s@.len(),
            v@.len() == i,
            forall|j: int| 0 <= j < i ==> #[trigger] v@[j] == strat_code(s@[j]),
        decreases n - i,
    {
        let c = s.get_char(i);
        if c == '_' || c == ' ' {
            v.push('-' as u32);
        } else if c >= 'A' && c <= 'Z' {
            v.push(c as u32 + 32);
        } else {
            v.push(c as u32);
        }
        i += 1;
    }
    proof {
        assert(v@ =~= strat_name(s@));
    }
    v
}

/// Whether two strings hold the same characters.
fn str_eq(a: &str, b: &str) -> (r: bool)
    ensures
        r == (a@ == b@),
{
    let na = a.unicode_len();
    let nb = b.unicode_len();
    if na != nb {
        return false;
    }
    let mut i: usize = 0;
    while i < na
        invariant
            0 <= i <= na,
            na == a@.len(),
            a@.len() == b@.len(),
            forall|j: int| 0 <= j < i ==> a@[j] == b@[j],
        decreases na - i,
    {
        if a.get_char(i) != b.get_char(i) {
            return false;
        }
        i += 1;
    }
    proof {
        assert(a@ =~= b@);
    }
    true
}

/// Whether the strategy token is one this crate accepts.
fn is_known_strategy(s: &str) -> (b: bool)
    ensures
        b == known_strategy(s@),
{
    if str_eq(s, "random-greedy") {
        return true;
    }
    let sc = strat_codes(s);
    codes_eq(&sc, &strat_codes("optimal")) || codes_eq(&sc, &strat_codes("optimized")) || codes_eq(
        &sc,
        &strat_codes("no-optimize"),
    ) || codes_eq(&sc, &strat_codes("branch-all")) || codes_eq(&sc, &strat_codes("branch-2"))
        || codes_eq(&sc, &strat_codes("branch-1")) || codes_eq(&sc, &strat_codes("greedy"))
        || codes_eq(&sc, &strat_codes("eager")) || codes_eq(&sc, &strat_codes("opportunistic"))
        || codes_eq(&sc, &strat_codes("dp")) || codes_eq(&sc, &strat_codes("dynamic-programming"))
        || codes_eq(&sc, &strat_codes("auto")) || codes_eq(&sc, &strat_codes("auto-hq"))
}

/// A comma stands somewhere after a `>`.  The path optimizer reads such a
/// comma as an output label, looks its size up in a dictionary that has no
/// entry for it, and aborts; these subscripts are rejected up front.
pub open spec fn comma_after_gt(s: Seq<char>) -> bool {
    exists|i: int, j: int| 0 <= i < j < s.len() && s[i] == '>' && s[j] == ','
}

/// Subscripts this crate hands to the path optimizer: no ellipsis dots and
/// no comma after the `->` separator.
pub open spec fn subscript_ok(s: Seq<char>) -> bool {
    &&& !s.contains('.')
    &&& !comma_after_gt(s)
}

/// Whether a comma stands after a `>` in the string.
fn str_comma_after_gt(s: &str) -> (b: bool)
    ensures
        b == comma_after_gt(s@),
{
    let n = s.unicode_len();
    // first `>`, if any
    let mut p: usize = 0;
    let mut found = false;
    while p < n && !found
        invariant
            0 <= p <= n,
            n == s@.len(),
            forall|i: int| 0 <= i < p ==> s@[i] != '>',
            found ==> p < n && s@[p as int] == '>',
        decreases n - p, if found { 0int } else { 1int },
    {
        if s.get_char(p) == '>' {
            found = true;
        } else {
            p += 1;
        }
    }
    if !found {
        proof {
            assert forall|i: int, j: int|
                0 <= i < j < s@.len() implies !(s@[i] == '>' && s@[j] == ',') by {
                assert(s@[i] != '>');
            }
        }
        return false;
    }
    // any comma after it
    let mut q: usize = p + 1;
    while q < n
        invariant
            p < q <= n,
            n == s@.len(),
            p < n,
            s@[p as int] == '>',
            forall|i: int| 0 <= i < p ==> s@[i] != '>',
            forall|j: int| p < j < q ==> s@[j] != ',',
        decreases n - q,
    {
        if s.get_char(q) == ',' {
            proof {
                assert(s@[p as int] == '>' && s@[q as int] == ',');
            }
            return true;
        }
        q += 1;
    }
    proof {
        assert forall|i: int, j: int|
            0 <= i < j < s@.len() implies !(s@[i] == '>' && s@[j] == ',') by {
            if s@[i] == '>' {
                assert(i >= p);
                assert(j > p);
                assert(s@[j] != ',');
            }
        }
    }
    false
}

/// Whether the string holds the given character.
fn str_contains_char(s: &str, c: char) -> (b: bool)
    ensures
        b == s@.contains(c),
{
    let n = s.unicode_len();
    let mut i: usize = 0;
    while i < n
        invariant
            0 <= i <= n,
            n == s@.len(),
            forall|j: int| 0 <= j < i ==> s@[j] != c,
        decreases n - i,
    {
        if s.get_char(i) == c {
            proof {
                assert(s@[i as int] == c);
            }
            return true;
        }
        i += 1;
    }
    proof {
        assert(forall|j: int| 0 <= j < s@.len() ==> s@[j] != c);
    }
    false
}

/// One raw contraction record as the path optimizer hands it out: the
/// working-set positions it consumes and its `inputs->output` label term.
pub struct RawStep {
    pub indices: Vec<usize>,
    pub term: Vec<char>,
}

/// Relies on `opt_einsum_path::contract_path`: it parses the einsum
/// expression, builds the size dictionary, asks the chosen strategy for a
/// contraction order, and returns one record per step.  The strategy token
/// must be a known one (the crate aborts on unknown tokens); the
/// expression must not use ellipses (the crate indexes operands by term
/// position when expanding them) and must not hold a comma after a `>`
/// (the crate accepts a comma as an output label but aborts when it looks
/// its size up).  The size dictionary is a `BTreeMap`, so the returned
/// pairs carry strictly increasing keys.
#[verifier::external_body]
fn contract_path_raw(
    subscripts: &str,
    shapes: &Vec<Vec<usize>>,
    optimize: &str,
    memory_limit: &TblisMemLimit,
) -> (r: Result<(Vec<RawStep>, Vec<(char, usize)>), String>)
    requires
        known_strategy(optimize@),
        subscript_ok(subscripts@),
    ensures
        r matches Ok(out) ==> forall|i: int, j: int|
            0 <= i < j < out.1@.len() ==> (#[trigger] out.1@[i]).0 < (#[trigger] out.1@[j]).0,
{
    let limit = match memory_limit {
        TblisMemLimit::Unlimited => opt_einsum_path::typing::SizeLimitType::None,
        TblisMemLimit::MaxInput => opt_einsum_path::typing::SizeLimitType::MaxInput,
        TblisMemLimit::Bound(n) => opt_einsum_path::typing::SizeLimitType::Size(*n as _),
    };
    match opt_einsum_path::contract_path(subscripts, shapes, optimize, limit) {
        Ok((_, info)) => Ok((
            info.contraction_list
                .into_iter()
                .map(|c| RawStep { indices: c.indices, term: c.einsum_str.chars().collect() })
                .collect(),
            info.size_dict.into_iter().collect(),
        )),
        Err(e) => Err(e),
    }
}

/// One prepared contraction step: the working-set positions of its one or
/// two inputs, their label vectors, the result's labels and its shape.
#[derive(Debug, Clone, PartialEq, Eq)]
pub struct TblisContractStep {
    pub indices: Vec<usize>,
    pub idx_a: Vec<char>,
    pub idx_b: Option<Vec<char>>,
    pub idx_c: Vec<char>,
    pub shape_c: Vec<isize>,
}

/// Structural well-formedness of a prepared step.
pub open spec fn step_wf(s: TblisContractStep) -> bool {
    &&& (s.indices@.len() == 1 || s.indices@.len() == 2)
    &&& (s.idx_b is Some <==> s.indices@.len() == 2)
    &&& s.shape_c@.len() == s.idx_c@.len()
    &&& forall|i: int| 0 <= i < s.shape_c@.len() ==> #[trigger] s.shape_c@[i] >= 0
}

/// Copy of a character range.
fn subrange_chars(v: &Vec<char>, from: usize, to: usize) -> (r: Vec<char>)
    requires
        from <= to <= v@.len(),
    ensures
        r@ == v@.subrange(from as int, to as int),
{
    let mut r: Vec<char> = Vec::new();
    let mut i: usize = from;
    while i < to
        invariant
            from <= i <= to <= v@.len(),
            r@ == v@.subrange(from as int, i as int),
        decreases to - i,
    {
        let c = v[i];
        r.push(c);
        proof {
            assert(r@ =~= v@.subrange(from as int, i as int + 1));
        }
        i += 1;
    }
    r
}

/// First value recorded for the key in a label-size pair list.
fn lookup_usize(m: &Vec<(char, usize)>, c: char) -> (r: Option<usize>)
    ensures
        r matches Some(v) ==> v as int == dict_val(m@, c),
        r is None <==> dict_val(m@, c) == -1,
{
    let n = m.len();
    let mut i: usize = 0;
    while i < n
        invariant
            0 <= i <= n,
            n == m@.len(),
            dict_val(m@, c) == dict_val_from(m@, i as int, c),
        decreases n - i,
    {
        let e = m[i];
        if e.0 == c {
            return Some(e.1);
        }
        i += 1;
    }
    None
}


/// Position of the first `->` separator at or after `i`, or `-1`.
pub open spec fn spec_arrow(term: Seq<char>, i: int) -> int
    decreases term.len() - i,
{
    if i < 0 || i + 2 > term.len() {
        -1
    } else if term[i] == '-' && term[i + 1] == '>' {
        i
    } else {
        spec_arrow(term, i + 1)
    }
}

/// Position of the first comma in `[i, to)`, or `-1`.
pub open spec fn spec_comma(term: Seq<char>, i: int, to: int) -> int
    decreases to - i,
{
    if i < 0 || i >= to || to > term.len() {
        -1
    } else if term[i] == ',' {
        i
    } else {
        spec_comma(term, i + 1, to)
    }
}

/// Size recorded for the key at or after position `i`, or `-1`.
pub open spec fn dict_val_from(m: Seq<(char, usize)>, i: int, c: char) -> int
    decreases m.len() - i,
{
    if i < 0 || i >= m.len() {
        -1
    } else if m[i].0 == c {
        m[i].1 as int
    } else {
        dict_val_from(m, i + 1, c)
    }
}

/// Size recorded for the key, or `-1` when absent.
pub open spec fn dict_val(m: Seq<(char, usize)>, c: char) -> int {
    dict_val_from(m, 0, c)
}

/// First position of the `->` separator in a term.
fn find_arrow(term: &Vec<char>) -> (r: Option<usize>)
    ensures
        r matches Some(i) ==> i + 2 <= term@.len() && i as int == spec_arrow(term@, 0),
        r is None <==> spec_arrow(term@, 0) == -1,
{
    let n = term.len();
    if n < 2 {
        return None;
    }
    let mut i: usize = 0;
    while i < n - 1
        invariant
            0 <= i <= n - 1,
            n == term@.len(),
            n >= 2,
            spec_arrow(term@, 0) == spec_arrow(term@, i as int),
        decreases n - i,
    {
        if term[i] == '-' && term[i + 1] == '>' {
            return Some(i);
        }
        i += 1;
    }
    None
}

/// First comma in `term[from..to]`.
fn find_comma(term: &Vec<char>, from: usize, to: usize) -> (r: Option<usize>)
    requires
        from <= to <= term@.len(),
    ensures
        r matches Some(p) ==> from <= p < to && p as int == spec_comma(term@, from as int, to as int),
        r is None <==> spec_comma(term@, from as int, to as int) == -1,
{
    let mut i: usize = from;
    while i < to
        invariant
            from <= i <= to <= term@.len(),
            spec_comma(term@, from as int, to as int) == spec_comma(term@, i as int, to as int),
        decreases to - i,
    {
        if term[i] == ',' {
            return Some(i);
        }
        i += 1;
    }
    None
}


/// A raw record can be parsed: one or two inputs, a `->` separator, for a
/// pairwise record a comma between the inputs, and every output label
/// present in the size dictionary with a size the signed range holds.
pub open spec fn raw_ok(rs: RawStep, dict: Seq<(char, usize)>) -> bool {
    let term = rs.term@;
    let ar = spec_arrow(term, 0);
    let nidx = rs.indices@.len();
    &&& (nidx == 1 || nidx == 2)
    &&& ar >= 0
    &&& (nidx == 2 ==> spec_comma(term, 0, ar) >= 0)
    &&& (forall|j: int|
        ar + 2 <= j < term.len() ==> 0 <= dict_val(dict, #[trigger] term[j]) <= isize::MAX)
}

/// The prepared step carries exactly the parsed parts of the raw record:
/// the positions, the labels split at `->` and the first comma, and the
/// dictionary size of every output label.
pub open spec fn parsed_step(st: TblisContractStep, rs: RawStep, dict: Seq<(char, usize)>) -> bool {
    let term = rs.term@;
    let ar = spec_arrow(term, 0);
    let cm = spec_comma(term, 0, ar);
    let cm2 = spec_comma(term, cm + 1, ar);
    &&& st.indices@ == rs.indices@
    &&& st.idx_c@ == term.subrange(ar + 2, term.len() as int)
    &&& (rs.indices@.len() == 1 ==> st.idx_a@ == term.subrange(0, ar) && st.idx_b is None)
    &&& (rs.indices@.len() == 2 ==> st.idx_a@ == term.subrange(0, cm) && (st.idx_b matches Some(v)
        && v@ == term.subrange(
        cm + 1,
        if cm2 >= 0 {
            cm2
        } else {
            ar
        },
    )))
    &&& st.shape_c@.len() == st.idx_c@.len()
    &&& (forall|j: int|
        0 <= j < st.shape_c@.len() ==> (#[trigger] st.shape_c@[j]) as int == dict_val(
            dict,
            st.idx_c@[j],
        ))
}

/// The prepared steps are exactly the parsed form of the given raw
/// records against the given size dictionary.
pub open spec fn steps_match(
    steps: Seq<TblisContractStep>,
    raw: Seq<RawStep>,
    dict: Seq<(char, usize)>,
) -> bool {
    &&& steps.len() == raw.len()
    &&& forall|k: int|
        0 <= k < steps.len() ==> raw_ok(#[trigger] raw[k], dict) && parsed_step(
            steps[k],
            raw[k],
            dict,
        )
}

/// The steps are the parsed form of some list of raw records and some size
/// dictionary: in particular, each step's result shape carries the
/// dictionary's size for its output label, consistently across the plan.
pub open spec fn prep_parsed(steps: Seq<TblisContractStep>) -> bool {
    exists|raw: Seq<RawStep>, dict: Seq<(char, usize)>| steps_match(steps, raw, dict)
}

/// Parse the optimizer's raw records into prepared contraction steps,
/// reading each output label's size off the size dictionary.
fn parse_raw_steps(raw_steps: &Vec<RawStep>, size_dict: &Vec<(char, usize)>) -> (r: Result<
    Vec<TblisContractStep>,
    TblisError,
>)
    ensures
        r is Ok <==> (forall|k: int|
            0 <= k < raw_steps@.len() ==> raw_ok(#[trigger] raw_steps@[k], size_dict@)),
        r matches Ok(steps) ==> steps@.len() == raw_steps@.len(),
        r matches Ok(steps) ==> forall|k: int|
            0 <= k < steps@.len() ==> parsed_step(#[trigger] steps@[k], raw_steps@[k], size_dict@),
        r matches Ok(steps) ==> forall|k: int|
            0 <= k < steps@.len() ==> step_wf(#[trigger] steps@[k]),
        r matches Err(e) ==> (e == TblisError::UnsupportedStep || e == TblisError::MalformedStep
            || e == TblisError::TooLarge),
{
    let ns = raw_steps.len();
    let mut steps: Vec<TblisContractStep> = Vec::new();
    let mut k: usize = 0;
    while k < ns
        invariant
            0 <= k <= ns,
            ns == raw_steps@.len(),
            steps@.len() == k,
            forall|i: int| 0 <= i < k ==> raw_ok(#[trigger] raw_steps@[i], size_dict@),
            forall|i: int|
                0 <= i < k ==> parsed_step(#[trigger] steps@[i], raw_steps@[i], size_dict@),
            forall|i: int| 0 <= i < k ==> step_wf(#[trigger] steps@[i]),
        decreases ns - k,
    {
        let nidx = raw_steps[k].indices.len();
        if nidx != 1 && nidx != 2 {
            proof {
                assert(!raw_ok(raw_steps@[k as int], size_dict@));
            }
            return Err(TblisError::UnsupportedStep);
        }
        let term = &raw_steps[k].term;
        let tn = term.len();
        let arrow = match find_arrow(term) {
            Option::Some(i) => i,
            Option::None => {
                proof {
                    assert(!raw_ok(raw_steps@[k as int], size_dict@));
                }
                return Err(TblisError::MalformedStep);
            },
        };
        let idx_c = subrange_chars(term, arrow + 2, tn);
        let (idx_a, idx_b) = if nidx == 2 {
            // split the input part at its first two commas
            let comma = match find_comma(term, 0, arrow) {
                Option::Some(p) => p,
                Option::None => {
                    proof {
                        assert(!raw_ok(raw_steps@[k as int], size_dict@));
                    }
                    return Err(TblisError::MalformedStep);
                },
            };
            let comma2 = match find_comma(term, comma + 1, arrow) {
                Option::Some(p) => p,
                Option::None => arrow,
            };
            let ia = subrange_chars(term, 0, comma);
            let ib = subrange_chars(term, comma + 1, comma2);
            (ia, Some(ib))
        } else {
            (subrange_chars(term, 0, arrow), None)
        };
        // result shape from the size dictionary
        let ncs = idx_c.len();
        let mut shape_c: Vec<isize> = Vec::new();
        let mut j: usize = 0;
        while j < ncs
            invariant
                0 <= j <= ncs,
                0 <= k < ns,
                ns == raw_steps@.len(),
                ncs == idx_c@.len(),
                idx_c@ == raw_steps@[k as int].term@.subrange(
                    spec_arrow(raw_steps@[k as int].term@, 0) + 2,
                    raw_steps@[k as int].term@.len() as int,
                ),
                spec_arrow(raw_steps@[k as int].term@, 0) >= 0,
                spec_arrow(raw_steps@[k as int].term@, 0) + 2 <= raw_steps@[k as int].term@.len(),
                shape_c@.len() == j,
                forall|i: int|
                    0 <= i < j ==> (#[trigger] shape_c@[i]) as int == dict_val(
                        size_dict@,
                        idx_c@[i],
                    ),
                forall|i: int|
                    0 <= i < j ==> 0 <= dict_val(size_dict@, #[trigger] idx_c@[i]) <= isize::MAX,
            decreases ncs - j,
        {
            let c = idx_c[j];
            let v = match lookup_usize(size_dict, c) {
                Option::Some(v) => v,
                Option::None => {
                    proof {
                        let ghost gterm = raw_steps@[k as int].term@;
                        let ghost gar = spec_arrow(gterm, 0);
                        let ghost sr = gterm.subrange(gar + 2, gterm.len() as int);
                        assert(idx_c@[j as int] == sr[j as int]);
                        assert(gterm[gar + 2 + j as int] == c);
                        assert(!raw_ok(raw_steps@[k as int], size_dict@));
                    }
                    return Err(TblisError::MalformedStep);
                },
            };
            if v > (isize::MAX as usize) {
                proof {
                    let ghost gterm = raw_steps@[k as int].term@;
                    let ghost gar = spec_arrow(gterm, 0);
                    let ghost sr = gterm.subrange(gar + 2, gterm.len() as int);
                    assert(idx_c@[j as int] == sr[j as int]);
                    assert(gterm[gar + 2 + j as int] == c);
                    assert(!raw_ok(raw_steps@[k as int], size_dict@));
                }
                return Err(TblisError::TooLarge);
            }
            shape_c.push(v as isize);
            j += 1;
        }
        let indices = raw_steps[k].indices.clone();
        proof {
            assert(indices@ =~= raw_steps@[k as int].indices@);
        }
        let st = TblisContractStep { indices, idx_a, idx_b, idx_c, shape_c };
        proof {
            assert(st.indices@.len() == nidx);
            let ghost gterm = raw_steps@[k as int].term@;
            let ghost gar = spec_arrow(gterm, 0);
            assert forall|jj: int| gar + 2 <= jj < gterm.len() implies 0 <= dict_val(
                size_dict@,
                #[trigger] gterm[jj],
            ) <= isize::MAX by {
                assert(st.idx_c@[jj - gar - 2] == gterm.subrange(gar + 2, gterm.len() as int)[jj
                    - gar - 2]);
                assert(gterm[jj] == st.idx_c@[jj - gar - 2]);
            }
            assert(raw_ok(raw_steps@[k as int], size_dict@));
            assert(parsed_step(st, raw_steps@[k as int], size_dict@));
        }
        steps.push(st);
        k += 1;
    }
    Ok(steps)
}

/// Prepare the contraction steps of an einsum expression: ask the path
/// optimizer for an order, then parse each step's `inputs->output` term
/// and read the result shape off the size dictionary.  Ellipsis
/// expressions and parameterized strategy tokens are not supported.
pub fn tblis_einsum_prep_f(
    subscripts: &str,
    operands: &Vec<Vec<usize>>,
    optimize: &str,
    memory_limit: &TblisMemLimit,
) -> (r: Result<Vec<TblisContractStep>, TblisError>)
    ensures
        r matches Ok(steps) ==> forall|i: int|
            0 <= i < steps@.len() ==> step_wf(#[trigger] steps@[i]),
        r matches Ok(steps) ==> prep_parsed(steps@),
        r == Err::<Vec<TblisContractStep>, TblisError>(TblisError::UnsupportedSubscript)
            <==> !subscript_ok(subscripts@),
        r == Err::<Vec<TblisContractStep>, TblisError>(TblisError::UnknownStrategy) <==> (
        subscript_ok(subscripts@) && !known_strategy(optimize@)),
        r matches Err(e) ==> (e == TblisError::UnsupportedSubscript || e
            == TblisError::UnknownStrategy || e == TblisError::UnsupportedStep || e
            == TblisError::MalformedStep || e == TblisError::TooLarge || (e matches
        TblisError::PathOptimizer(_))),
{
    if str_contains_char(subscripts, '.') || str_comma_after_gt(subscripts) {
        return Err(TblisError::UnsupportedSubscript);
    }
    if !is_known_strategy(optimize) {
        return Err(TblisError::UnknownStrategy);
    }
    let raw = match contract_path_raw(subscripts, operands, optimize, memory_limit) {
        Result::Ok(out) => out,
        Result::Err(e) => {
            return Err(TblisError::PathOptimizer(e));
        },
    };
    let (raw_steps, size_dict) = raw;
    let parsed = parse_raw_steps(&raw_steps, &size_dict);
    proof {
        match &parsed {
            Result::Ok(steps) => {
                assert(steps_match(steps@, raw_steps@, size_dict@));
                assert(prep_parsed(steps@));
            },
            Result::Err(_) => (),
        }
    }
    parsed
}

/// Zero-filled buffer of the given length.
fn alloc_zeros(n: usize) -> (v: Vec<i64>)
    ensures
        v@.len() == n,
        forall|i: int| 0 <= i < n ==> #[trigger] v@[i] == 0i64,
{
    let mut v: Vec<i64> = Vec::new();
    let mut i: usize = 0;
    while i < n
        invariant
            0 <= i <= n,
            v@.len() == i,
            forall|j: int| 0 <= j < i ==> #[trigger] v@[j] == 0i64,
        decreases n - i,
    {
        v.push(0);
        i += 1;
    }
    v
}

/// Number of elements of a shape, or a report that it exceeds the machine.
fn checked_size(shape: &Vec<isize>) -> (r: Option<usize>)
    requires
        forall|i: int| 0 <= i < shape@.len() ==> #[trigger] shape@[i] >= 0,
    ensures
        r matches Some(sz) ==> sz as int == prod_isize_from(shape@, 0),
        r is None ==> prod_isize_from(shape@, 0) > usize::MAX,
{
    let n = shape.len();
    let mut us: Vec<usize> = Vec::new();
    let mut i: usize = 0;
    while i < n
        invariant
            0 <= i <= n,
            n == shape@.len(),
            forall|q: int| 0 <= q < shape@.len() ==> #[trigger] shape@[q] >= 0,
            us@.len() == i,
            forall|q: int| 0 <= q < i ==> (#[trigger] us@[q]) as int == shape@[q] as int,
        decreases n - i,
    {
        us.push(shape[i] as usize);
        i += 1;
    }
    proof {
        lemma_prod_eq_isize(us@, shape@, 0);
    }
    checked_total(&us)
}

/// The contiguous strides of the shape fit the machine's signed range.
pub open spec fn stride_fits(shape: Seq<isize>, row_major: bool) -> bool {
    if row_major {
        forall|j: int| 1 <= j < shape.len() ==> prod_isize_from(shape, j) <= isize::MAX
    } else {
        forall|j: int| 1 <= j < shape.len() ==> prod_isize_to(shape, j) <= isize::MAX
    }
}

/// Contiguous strides of a shape, row-major or col-major.
pub open spec fn contig_stride(shape: Seq<isize>, row_major: bool) -> Seq<isize> {
    Seq::new(
        shape.len(),
        |j: int|
            if row_major {
                prod_isize_from(shape, j + 1) as isize
            } else {
                prod_isize_to(shape, j) as isize
            },
    )
}

/// Strides of a freshly allocated contiguous buffer, by layout.  Fails
/// exactly when a partial product exceeds the machine's range.
fn shape_to_stride(shape: &Vec<isize>, row_major: bool) -> (r: Result<Vec<isize>, TblisError>)
    requires
        forall|i: int| 0 <= i < shape@.len() ==> #[trigger] shape@[i] >= 0,
    ensures
        r is Ok <==> stride_fits(shape@, row_major),
        r matches Ok(st) ==> st@.len() == shape@.len(),
        r matches Ok(st) ==> forall|j: int| 0 <= j < st@.len() ==> #[trigger] st@[j] >= 0,
        r matches Ok(st) ==> (row_major ==> forall|j: int|
            0 <= j < st@.len() ==> (#[trigger] st@[j]) as int == prod_isize_from(shape@, j + 1)),
        r matches Ok(st) ==> (!row_major ==> forall|j: int|
            0 <= j < st@.len() ==> (#[trigger] st@[j]) as int == prod_isize_to(shape@, j)),
        r matches Ok(st) ==> st@ == contig_stride(shape@, row_major),
        r is Err ==> r == Err::<Vec<isize>, TblisError>(TblisError::TooLarge),
{
    let n = shape.len();
    let mut st: Vec<isize> = Vec::new();
    let mut i: usize = 0;
    while i < n
        invariant
            0 <= i <= n,
            st@.len() == i,
            forall|q: int| 0 <= q < i ==> #[trigger] st@[q] == 1isize,
        decreases n - i,
    {
        st.push(1);
        i += 1;
    }
    if n == 0 {
        proof {
            assert(st@ =~= contig_stride(shape@, row_major));
        }
        return Ok(st);
    }
    if row_major {
        proof {
            assert(prod_isize_from(shape@, n as int) == 1);
        }
        let mut j: usize = n - 1;
        while j > 0
            invariant
                row_major,
                0 <= j <= n - 1,
                n == shape@.len(),
                st@.len() == n,
                forall|q: int| 0 <= q < shape@.len() ==> #[trigger] shape@[q] >= 0,
                forall|m: int|
                    j <= m < n ==> (#[trigger] st@[m]) as int == prod_isize_from(shape@, m + 1),
                forall|m: int| j <= m < n ==> (#[trigger] st@[m]) >= 0,
            decreases j,
        {
            j -= 1;
            let prev = st[j + 1];
            match prev.checked_mul(shape[j + 1]) {
                Option::Some(v) => {
                    proof {
                        assert(v as int == prod_isize_from(shape@, j as int + 1))
                            by (nonlinear_arith)
                            requires
                                v as int == prev as int * shape@[j as int + 1],
                                prev as int == prod_isize_from(shape@, j as int + 2),
                                prod_isize_from(shape@, j as int + 1) == shape@[j as int + 1]
                                    * prod_isize_from(shape@, j as int + 2),
                        ;
                    }
                    st.set(j, v);
                },
                Option::None => {
                    proof {
                        assert(prev as int * shape@[j as int + 1] == prod_isize_from(
                            shape@,
                            j as int + 1,
                        )) by (nonlinear_arith)
                            requires
                                prev as int == prod_isize_from(shape@, j as int + 2),
                                prod_isize_from(shape@, j as int + 1) == shape@[j as int + 1]
                                    * prod_isize_from(shape@, j as int + 2),
                        ;
                        assert(prev as int * shape@[j as int + 1] >= 0) by (nonlinear_arith)
                            requires
                                prev >= 0,
                                shape@[j as int + 1] >= 0,
                        ;
                        assert(prod_isize_from(shape@, j as int + 1) > isize::MAX);
                        assert(!stride_fits(shape@, true));
                    }
                    return Err(TblisError::TooLarge);
                },
            }
        }
        proof {
            assert forall|m: int| 1 <= m < shape@.len() implies prod_isize_from(shape@, m)
                <= isize::MAX by {
                assert(st@[m - 1] as int == prod_isize_from(shape@, m));
            }
            assert(st@ =~= contig_stride(shape@, true));
        }
        Ok(st)
    } else {
        proof {
            assert(prod_isize_to(shape@, 0) == 1);
        }
        let mut j: usize = 1;
        while j < n
            invariant
                !row_major,
                1 <= j <= n,
                n == shape@.len(),
                st@.len() == n,
                forall|q: int| 0 <= q < shape@.len() ==> #[trigger] shape@[q] >= 0,
                forall|m: int|
                    0 <= m < j ==> (#[trigger] st@[m]) as int == prod_isize_to(shape@, m),
                forall|m: int| 0 <= m < j ==> (#[trigger] st@[m]) >= 0,
            decreases n - j,
        {
            let prev = st[j - 1];
            match prev.checked_mul(shape[j - 1]) {
                Option::Some(v) => {
                    proof {
                        assert(v as int == prod_isize_to(shape@, j as int));
                    }
                    st.set(j, v);
                },
                Option::None => {
                    proof {
                        assert(prev as int * shape@[j as int - 1] >= 0) by (nonlinear_arith)
                            requires
                                prev >= 0,
                                shape@[j as int - 1] >= 0,
                        ;
                        assert(prod_isize_to(shape@, j as int) > isize::MAX);
                        assert(!stride_fits(shape@, false));
                    }
                    return Err(TblisError::TooLarge);
                },
            }
            j += 1;
        }
        proof {
            assert forall|m: int| 1 <= m < shape@.len() implies prod_isize_to(shape@, m)
                <= isize::MAX by {
                assert(st@[m] as int == prod_isize_to(shape@, m));
            }
            assert(st@ =~= contig_stride(shape@, false));
        }
        Ok(st)
    }
}

/// Shape of a traced tensor: each kept label takes the size found at its
/// first occurrence in the original subscript.
pub open spec fn trace_shape(prev: Seq<char>, traced: Seq<char>, shape: Seq<isize>) -> Seq<isize> {
    Seq::new(traced.len(), |j: int| shape[first_pos(prev, traced[j])])
}

/// A fresh tensor whose geometry the executor just built is well-formed.
proof fn lemma_fresh_wf(t: TblisTensor, row_major: bool)
    requires
        t.shape@.len() == t.stride@.len(),
        forall|i: int| 0 <= i < t.shape@.len() ==> #[trigger] t.shape@[i] >= 0,
        forall|i: int| 0 <= i < t.stride@.len() ==> #[trigger] t.stride@[i] >= 0,
        row_major ==> forall|i: int|
            0 <= i < t.stride@.len() ==> (#[trigger] t.stride@[i]) as int == prod_isize_from(
                t.shape@,
                i + 1,
            ),
        !row_major ==> forall|i: int|
            0 <= i < t.stride@.len() ==> (#[trigger] t.stride@[i]) as int == prod_isize_to(
                t.shape@,
                i,
            ),
        t.data@.len() == prod_isize_from(t.shape@, 0),
    ensures
        t.wf(),
{
    if shape_pos(t.shape@) {
        lemma_prod_isize_pos(t.shape@, 0);
        if row_major {
            lemma_contig_rm(t.shape@, t.stride@, t.shape@.len() as int);
        } else {
            lemma_contig_cm(t.shape@, t.stride@, t.shape@.len() as int);
            lemma_prod_isize_split(t.shape@, t.shape@.len() as int);
            assert(prod_isize_to(t.shape@, t.shape@.len() as int) * 1 == prod_isize_to(
                t.shape@,
                t.shape@.len() as int,
            )) by (nonlinear_arith);
        }
    }
}



/// Zero sequence of the given length.
pub open spec fn zero_seq(n: int) -> Seq<i64> {
    Seq::new((if n < 0 { 0int } else { n }) as nat, |i: int| 0i64)
}

/// Data of a traced tensor: the unary add of the original into a zeroed
/// contiguous buffer over the kept labels, at `alpha = 1`, `beta = 0` (the
/// `beta` pass leaves the zeroed buffer unchanged).
pub open spec fn trace_data(
    prev: Seq<char>,
    traced: Seq<char>,
    adata: Seq<i64>,
    ashape: Seq<isize>,
    astride: Seq<isize>,
    tshape: Seq<isize>,
    tstride: Seq<isize>,
) -> Seq<i64> {
    let subs = seq![prev, traced];
    let shapes = seq![ashape, tshape];
    let labels = dedup_all(subs);
    let dims = spec_dims(subs, shapes);
    let own_dims = spec_dims(seq![traced], seq![tshape]);
    let b1 = affine_fold(
        zero_seq(prod_isize_from(tshape, 0)),
        spec_pos(traced, dedup_all(seq![traced])),
        spec_stride_u(tstride),
        own_dims,
        0,
        0,
        prod_from(own_dims, 0),
    );
    add_fold(
        adata,
        spec_pos(prev, labels),
        spec_stride_u(astride),
        b1,
        spec_pos(traced, labels),
        spec_stride_u(tstride),
        dims,
        1,
        prod_from(dims, 0),
    )
}

/// Model of a traced tensor: the kept labels' sizes, contiguous strides,
/// and the unary-add fold of the original into zeroed storage.
pub open spec fn trace_model(prev: Seq<char>, traced: Seq<char>, m: TensorModel, row_major: bool) -> TensorModel {
    let tshape = trace_shape(prev, traced, m.shape);
    TensorModel {
        data: trace_data(
            prev,
            traced,
            m.data,
            m.shape,
            m.stride,
            tshape,
            contig_stride(tshape, row_major),
        ),
        shape: tshape,
        stride: contig_stride(tshape, row_major),
        scalar: 1,
        conj: false,
    }
}

/// Success conditions of the trace: the label count matches the tensor's
/// rank, the kept labels are distinct, the traced geometry fits the
/// machine, and the unary add accepts the label pair.
pub open spec fn trace_ok(prev: Seq<char>, traced: Seq<char>, m: TensorModel, row_major: bool) -> bool {
    let tshape = trace_shape(prev, traced, m.shape);
    &&& prev.len() == m.shape.len()
    &&& dedup_all(seq![traced]).len() == traced.len()
    &&& stride_fits(tshape, row_major)
    &&& prod_isize_from(tshape, 0) <= usize::MAX
    &&& add_ok(prev, traced, m.shape, tshape)
}

/// Trace elimination: sum the labels of `idx_prev` missing from
/// `idx_traced` out of the tensor, into a freshly allocated contiguous
/// tensor over the kept labels.
fn tblis_trace_f(
    idx_prev: &Vec<char>,
    idx_traced: &Vec<char>,
    tsr: &TblisTensor,
    row_major: bool,
) -> (r: Result<TblisTensor, TblisError>)
    requires
        tsr.wf(),
        forall|j: int|
            0 <= j < idx_traced@.len() ==> contains_char(idx_prev@, #[trigger] idx_traced@[j]),
    ensures
        r is Ok <==> trace_ok(idx_prev@, idx_traced@, tsr.model(), row_major),
        r matches Ok(t) ==> t.wf() && t.data@.len() == prod_isize_from(t.shape@, 0) && t.model()
            == trace_model(idx_prev@, idx_traced@, tsr.model(), row_major),
        r matches Err(e) ==> (e == TblisError::RankMismatch || e == TblisError::MalformedStep || e
            == TblisError::TooLarge || e == TblisError::SizeConflict || e
            == TblisError::TooManyLabels || e == TblisError::UniqueIndex || e
            == TblisError::CountMismatch || e == TblisError::NegativeDim),
{
    if idx_prev.len() != tsr.shape.len() {
        return Err(TblisError::RankMismatch);
    }
    // the kept label string must list each remaining label exactly once
    let ol = own_labels_of(idx_traced);
    if ol.len() != idx_traced.len() {
        return Err(TblisError::MalformedStep);
    }
    // shape of the traced tensor: each kept label's size at first occurrence
    let nt = idx_traced.len();
    let mut shape_tr: Vec<isize> = Vec::new();
    let mut j: usize = 0;
    while j < nt
        invariant
            0 <= j <= nt,
            nt == idx_traced@.len(),
            idx_prev@.len() == tsr.shape@.len(),
            tsr.wf(),
            forall|q: int|
                0 <= q < idx_traced@.len() ==> contains_char(idx_prev@, #[trigger] idx_traced@[q]),
            shape_tr@.len() == j,
            forall|q: int|
                0 <= q < j ==> #[trigger] shape_tr@[q] == tsr.shape@[first_pos(
                    idx_prev@,
                    idx_traced@[q],
                )],
            forall|q: int| 0 <= q < j ==> #[trigger] shape_tr@[q] >= 0,
        decreases nt - j,
    {
        proof {
            lemma_first_pos(idx_prev@, idx_traced@[j as int]);
        }
        match vec_first_pos(idx_prev, idx_traced[j]) {
            Option::Some(fp) => {
                let d = tsr.shape[fp];
                shape_tr.push(d);
            },
            Option::None => {
                proof {
                    assert(false);
                }
            },
        }
        j += 1;
    }
    proof {
        assert(shape_tr@ =~= trace_shape(idx_prev@, idx_traced@, tsr.shape@));
    }
    let stride_tr = match shape_to_stride(&shape_tr, row_major) {
        Result::Ok(v) => v,
        Result::Err(e) => {
            return Err(e);
        },
    };
    let size = match checked_size(&shape_tr) {
        Option::Some(sz) => sz,
        Option::None => {
            return Err(TblisError::TooLarge);
        },
    };
    let zeros = alloc_zeros(size);
    let mut dest = TblisTensor::new(zeros, &shape_tr, &stride_tr);
    proof {
        lemma_fresh_wf(dest, row_major);
        assert(dest.data@ =~= zero_seq(prod_isize_from(dest.shape@, 0)));
    }
    let ghost dest0 = dest;
    match add_chars_f(tsr, idx_prev, &mut dest, idx_traced, 1, 0) {
        Result::Ok(()) => (),
        Result::Err(e) => {
            return Err(e);
        },
    }
    proof {
        assert(dest.data@ == add_spec(tsr.model(), idx_prev@, dest0.model(), idx_traced@, 1, 0));
        assert(dest.data@ == trace_data(
            idx_prev@,
            idx_traced@,
            tsr.data@,
            tsr.shape@,
            tsr.stride@,
            dest.shape@,
            dest.stride@,
        ));
    }
    Ok(dest)
}

/// Two tensors hold the same contents, geometry and flags.
pub open spec fn tensor_eqv(x: TblisTensor, y: TblisTensor) -> bool {
    &&& x.data@ == y.data@
    &&& x.shape@ == y.shape@
    &&& x.stride@ == y.stride@
    &&& x.conj == y.conj
    &&& x.scalar == y.scalar
}

/// Two optional tensors agree.
pub open spec fn opt_tensor_eqv(x: Option<TblisTensor>, y: Option<TblisTensor>) -> bool {
    match (x, y) {
        (Option::None, Option::None) => true,
        (Option::Some(a), Option::Some(b)) => tensor_eqv(a, b),
        _ => false,
    }
}

/// A step is sound against a working set of `n` live tensors.
pub open spec fn step_ok_at(s: TblisContractStep, n: int) -> bool {
    &&& step_wf(s)
    &&& forall|i: int| 0 <= i < s.indices@.len() ==> (#[trigger] s.indices@[i]) < n
    &&& (s.indices@.len() == 2 ==> s.indices@[0] != s.indices@[1])
}

/// Number of live tensors after the first `k` steps of a plan that began
/// with `n0` operands: each step consumes one or two and appends one.
pub open spec fn remaining(steps: Seq<TblisContractStep>, k: int, n0: int) -> int
    decreases k,
{
    if k <= 0 {
        n0
    } else {
        remaining(steps, k - 1, n0) - (steps[k - 1].indices@.len() - 1)
    }
}

/// Every step of the plan is sound against the working set it will see.
pub open spec fn plan_wf(steps: Seq<TblisContractStep>, n0: int) -> bool {
    forall|k: int|
        0 <= k < steps.len() ==> step_ok_at(#[trigger] steps[k], remaining(steps, k, n0))
}

/// A plan the executor accepts: sound steps that collapse the working set
/// to exactly one live tensor.
pub open spec fn plan_ok(steps: Seq<TblisContractStep>, n0: int) -> bool {
    &&& plan_wf(steps, n0)
    &&& remaining(steps, steps.len() as int, n0) == 1
}

/// Every working-set entry is well-formed.
pub open spec fn ws_wf(ws: Seq<(TblisTensor, bool)>) -> bool {
    forall|i: int| 0 <= i < ws.len() ==> (#[trigger] ws[i]).0.wf()
}

/// Whether two shapes are equal.
fn shapes_equal(a: &Vec<isize>, b: &Vec<isize>) -> (r: bool)
    ensures
        r == (a@ == b@),
{
    if a.len() != b.len() {
        return false;
    }
    let n = a.len();
    let mut i: usize = 0;
    while i < n
        invariant
            0 <= i <= n,
            n == a@.len(),
            a@.len() == b@.len(),
            forall|j: int| 0 <= j < i ==> a@[j] == b@[j],
        decreases n - i,
    {
        if a[i] != b[i] {
            return false;
        }
        i += 1;
    }
    proof {
        assert(a@ =~= b@);
    }
    true
}

/// The characters of `sub` that occur in `t1` or in `t2`, in order.
pub open spec fn filter_keep(sub: Seq<char>, t1: Seq<char>, t2: Seq<char>) -> Seq<char>
    decreases sub.len(),
{
    if sub.len() == 0 {
        Seq::empty()
    } else {
        let rest = filter_keep(sub.drop_last(), t1, t2);
        if contains_char(t1, sub.last()) || contains_char(t2, sub.last()) {
            rest.push(sub.last())
        } else {
            rest
        }
    }
}

/// The characters of `sub` that occur in `t1` or `t2`, in order.
fn filter_covered(sub: &Vec<char>, t1: &Vec<char>, t2: &Vec<char>) -> (r: Vec<char>)
    ensures
        r@ == filter_keep(sub@, t1@, t2@),
        forall|j: int| 0 <= j < r@.len() ==> contains_char(sub@, #[trigger] r@[j]),
        covered_by2(r@, t1@, t2@),
{
    let n = sub.len();
    let mut r: Vec<char> = Vec::new();
    let mut i: usize = 0;
    while i < n
        invariant
            0 <= i <= n,
            n == sub@.len(),
            r@ == filter_keep(sub@.take(i as int), t1@, t2@),
            forall|j: int| 0 <= j < r@.len() ==> contains_char(sub@, #[trigger] r@[j]),
            covered_by2(r@, t1@, t2@),
        decreases n - i,
    {
        let c = sub[i];
        proof {
            assert(sub@.take(i as int + 1).drop_last() =~= sub@.take(i as int));
            assert(sub@.take(i as int + 1).last() == c);
        }
        if crate::labels::vec_contains(t1, c) || crate::labels::vec_contains(t2, c) {
            r.push(c);
            proof {
                assert(sub@[i as int] == c);
            }
        }
        i += 1;
    }
    proof {
        assert(sub@.take(n as int) =~= sub@);
    }
    r
}

/// Check a plan against the initial working-set size: step indices in
/// range and distinct, one result shape entry per output label, and a
/// final working set of exactly one tensor.
pub fn validate_plan(steps: &Vec<TblisContractStep>, n0: usize) -> (b: bool)
    ensures
        b == plan_ok(steps@, n0 as int),
{
    let ns = steps.len();
    let mut cur: usize = n0;
    let mut k: usize = 0;
    while k < ns
        invariant
            0 <= k <= ns,
            ns == steps@.len(),
            cur as int == remaining(steps@, k as int, n0 as int),
            forall|m: int|
                0 <= m < k ==> step_ok_at(#[trigger] steps@[m], remaining(steps@, m, n0 as int)),
        decreases ns - k,
    {
        let nidx = steps[k].indices.len();
        let ok = if nidx == 1 {
            steps[k].idx_b.is_none() && steps[k].shape_c.len() == steps[k].idx_c.len()
                && steps[k].indices[0] < cur
        } else if nidx == 2 {
            steps[k].idx_b.is_some() && steps[k].shape_c.len() == steps[k].idx_c.len()
                && steps[k].indices[0] < cur && steps[k].indices[1] < cur && steps[k].indices[0]
                != steps[k].indices[1]
        } else {
            false
        };
        if !ok {
            proof {
                assert(!step_ok_at(steps@[k as int], remaining(steps@, k as int, n0 as int)));
                assert(!plan_wf(steps@, n0 as int));
            }
            return false;
        }
        let ncs = steps[k].shape_c.len();
        let mut j: usize = 0;
        while j < ncs
            invariant
                0 <= j <= ncs,
                0 <= k < ns,
                ns == steps@.len(),
                ncs == steps@[k as int].shape_c@.len(),
                cur as int == remaining(steps@, k as int, n0 as int),
                forall|m: int|
                    0 <= m < k ==> step_ok_at(
                        #[trigger] steps@[m],
                        remaining(steps@, m, n0 as int),
                    ),
                forall|i: int| 0 <= i < j ==> #[trigger] steps@[k as int].shape_c@[i] >= 0,
            decreases ncs - j,
        {
            if steps[k].shape_c[j] < 0 {
                proof {
                    assert(!step_wf(steps@[k as int]));
                    assert(!step_ok_at(steps@[k as int], remaining(steps@, k as int, n0 as int)));
                    assert(!plan_wf(steps@, n0 as int));
                }
                return false;
            }
            j += 1;
        }
        proof {
            assert(step_ok_at(steps@[k as int], remaining(steps@, k as int, n0 as int)));
        }
        cur = cur - (nidx - 1);
        k += 1;
    }
    proof {
        if cur == 1 {
            assert(plan_wf(steps@, n0 as int));
        }
    }
    cur == 1
}


/// Models of the working-set entries.
pub open spec fn ws_models(ws: Seq<(TblisTensor, bool)>) -> Seq<(TensorModel, bool)> {
    Seq::new(ws.len(), |i: int| ((ws[i].0).model(), ws[i].1))
}

/// Model of an optional tensor.
pub open spec fn opt_model(o: Option<TblisTensor>) -> Option<TensorModel> {
    match o {
        Option::Some(t) => Option::Some(t.model()),
        Option::None => Option::None,
    }
}

/// Ghost state of a running plan: the working-set models, the optional
/// output buffer, whether it has been consumed, and whether every step so
/// far succeeded.
pub struct StepState {
    pub ws: Seq<(TensorModel, bool)>,
    pub out: Option<TensorModel>,
    pub used: bool,
    pub ok: bool,
}

/// Value a tensor yields when read as a scalar.
pub open spec fn scalar_value(m: TensorModel) -> i64 {
    vstd::wrapping::i64_specs::wrapping_mul(m.data[0], m.scalar)
}

/// Model of a freshly allocated contiguous destination: zeroed storage
/// over the given shape.
pub open spec fn fresh_dest(shape: Seq<isize>, row_major: bool) -> TensorModel {
    TensorModel {
        data: zero_seq(prod_isize_from(shape, 0)),
        shape: shape,
        stride: contig_stride(shape, row_major),
        scalar: 1,
        conj: false,
    }
}

/// A fresh destination of the given shape fits the machine.
pub open spec fn fresh_ok(shape: Seq<isize>, row_major: bool) -> bool {
    &&& prod_isize_from(shape, 0) <= usize::MAX
    &&& stride_fits(shape, row_major)
}

/// Result data of a binary step's arithmetic: the pairwise multiply, or
/// the scalar short-circuits when an operand's labels are fully reduced.
pub open spec fn dispatch_data(
    a: TensorModel,
    ia: Seq<char>,
    b: TensorModel,
    ib: Seq<char>,
    ic: Seq<char>,
    dest: TensorModel,
) -> Seq<i64> {
    if ia.len() > 0 && ib.len() > 0 {
        mult_spec(a, ia, b, ib, dest, ic, 1, 0)
    } else if ia.len() == 0 && ib.len() == 0 {
        if dest.data.len() > 0 {
            dest.data.update(
                0,
                vstd::wrapping::i64_specs::wrapping_mul(scalar_value(a), scalar_value(b)),
            )
        } else {
            dest.data
        }
    } else if ia.len() == 0 {
        add_spec(b, ib, dest, ic, scalar_value(a), 0)
    } else {
        add_spec(a, ia, dest, ic, scalar_value(b), 0)
    }
}

/// Success conditions of a binary step's arithmetic.
pub open spec fn dispatch_ok(
    a: TensorModel,
    ia: Seq<char>,
    b: TensorModel,
    ib: Seq<char>,
    ic: Seq<char>,
    dest: TensorModel,
) -> bool {
    if ia.len() > 0 && ib.len() > 0 {
        mult_ok(ia, ib, ic, a.shape, b.shape, dest.shape)
    } else if ia.len() == 0 && ib.len() == 0 {
        crate::indexing::tensor_size(a.shape) == 1 && crate::indexing::tensor_size(b.shape) == 1
    } else if ia.len() == 0 {
        crate::indexing::tensor_size(a.shape) == 1 && add_ok(ib, ic, b.shape, dest.shape)
    } else {
        crate::indexing::tensor_size(b.shape) == 1 && add_ok(ia, ic, a.shape, dest.shape)
    }
}

/// The trace eliminations of a binary step succeed (or are not needed).
pub open spec fn binary_traces_ok(
    st: TblisContractStep,
    ws: Seq<(TensorModel, bool)>,
    row_major: bool,
) -> bool {
    let ia = st.idx_a@;
    let ib = st.idx_b.unwrap()@;
    let ic = st.idx_c@;
    &&& (covered_by2(ia, ib, ic) || trace_ok(
        ia,
        filter_keep(ia, ib, ic),
        ws[st.indices@[0] as int].0,
        row_major,
    ))
    &&& (covered_by2(ib, ia, ic) || trace_ok(
        ib,
        filter_keep(ib, ia, ic),
        ws[st.indices@[1] as int].0,
        row_major,
    ))
}

/// Model of one binary contraction step: trace elimination on operands
/// with labels of their own, the choice of destination (the caller's
/// buffer on the last step, else fresh zeroed storage), the arithmetic
/// dispatch, and the working-set bookkeeping.
pub open spec fn binary_step_model(
    st: TblisContractStep,
    ws: Seq<(TensorModel, bool)>,
    row_major: bool,
    out: Option<TensorModel>,
    is_last: bool,
) -> StepState {
    let i0 = st.indices@[0] as int;
    let i1 = st.indices@[1] as int;
    let ia = st.idx_a@;
    let ib = st.idx_b.unwrap()@;
    let ic = st.idx_c@;
    let a0 = ws[i0].0;
    let b0 = ws[i1].0;
    let need_a = !covered_by2(ia, ib, ic);
    let need_b = !covered_by2(ib, ia, ic);
    let ka = filter_keep(ia, ib, ic);
    let kb = filter_keep(ib, ia, ic);
    let a1 = if need_a {
        trace_model(ia, ka, a0, row_major)
    } else {
        a0
    };
    let ia1 = if need_a {
        ka
    } else {
        ia
    };
    let b1 = if need_b {
        trace_model(ib, kb, b0, row_major)
    } else {
        b0
    };
    let ib1 = if need_b {
        kb
    } else {
        ib
    };
    let tr_ok = (!need_a || trace_ok(ia, ka, a0, row_major)) && (!need_b || trace_ok(
        ib,
        kb,
        b0,
        row_major,
    ));
    let use_out = is_last && out is Some;
    let dest = if use_out {
        out.unwrap()
    } else {
        fresh_dest(st.shape_c@, row_major)
    };
    let dest_ok = if use_out {
        out.unwrap().shape == st.shape_c@
    } else {
        fresh_ok(st.shape_c@, row_major)
    };
    let ws1 = if need_a {
        ws.update(i0, (a1, true))
    } else {
        ws
    };
    let ws2 = if need_b {
        ws1.update(i1, (b1, true))
    } else {
        ws1
    };
    let lo = if i0 < i1 {
        i0
    } else {
        i1
    };
    let hi = if i0 < i1 {
        i1
    } else {
        i0
    };
    let result = TensorModel {
        data: dispatch_data(a1, ia1, b1, ib1, ic, dest),
        shape: dest.shape,
        stride: dest.stride,
        scalar: dest.scalar,
        conj: dest.conj,
    };
    StepState {
        ws: ws2.remove(hi).remove(lo).push((result, !use_out)),
        out: if use_out {
            Option::None
        } else {
            out
        },
        used: use_out,
        ok: tr_ok && dest_ok && dispatch_ok(a1, ia1, b1, ib1, ic, dest),
    }
}

/// Model of one unary step: a transpose or reduction through the unary
/// add, into the caller's buffer on the last step or fresh storage.
pub open spec fn unary_step_model(
    st: TblisContractStep,
    ws: Seq<(TensorModel, bool)>,
    row_major: bool,
    out: Option<TensorModel>,
    is_last: bool,
) -> StepState {
    let i0 = st.indices@[0] as int;
    let a0 = ws[i0].0;
    let use_out = is_last && out is Some;
    let dest = if use_out {
        out.unwrap()
    } else {
        fresh_dest(st.shape_c@, row_major)
    };
    let dest_ok = if use_out {
        out.unwrap().shape == st.shape_c@
    } else {
        fresh_ok(st.shape_c@, row_major)
    };
    let result = TensorModel {
        data: add_spec(a0, st.idx_a@, dest, st.idx_c@, 1, 0),
        shape: dest.shape,
        stride: dest.stride,
        scalar: dest.scalar,
        conj: dest.conj,
    };
    StepState {
        ws: ws.remove(i0).push((result, !use_out)),
        out: if use_out {
            Option::None
        } else {
            out
        },
        used: use_out,
        ok: dest_ok && add_ok(st.idx_a@, st.idx_c@, a0.shape, dest.shape),
    }
}

/// State of a plan after its steps from `k` on, starting from `st`: each
/// step's model applied in order, frozen at the first failing step.
pub open spec fn run_model(
    steps: Seq<TblisContractStep>,
    k: int,
    st: StepState,
    row_major: bool,
) -> StepState
    decreases steps.len() - k,
{
    if k >= steps.len() || !st.ok {
        st
    } else {
        let is_last = k == steps.len() - 1;
        let next = if steps[k].indices@.len() == 2 {
            binary_step_model(steps[k], st.ws, row_major, st.out, is_last)
        } else {
            unary_step_model(steps[k], st.ws, row_major, st.out, is_last)
        };
        run_model(
            steps,
            k + 1,
            StepState { ws: next.ws, out: next.out, used: st.used || next.used, ok: next.ok },
            row_major,
        )
    }
}


/// With an output buffer present, a successful run of a non-empty plan
/// consumes the buffer on its final step.
proof fn lemma_run_consumes_out(
    steps: Seq<TblisContractStep>,
    k: int,
    st: StepState,
    row_major: bool,
)
    requires
        st.out is Some,
        k < steps.len(),
        st.ok,
        run_model(steps, k, st, row_major).ok,
    ensures
        run_model(steps, k, st, row_major).used,
    decreases steps.len() - k,
{
    let is_last = k == steps.len() - 1;
    let next = if steps[k].indices@.len() == 2 {
        binary_step_model(steps[k], st.ws, row_major, st.out, is_last)
    } else {
        unary_step_model(steps[k], st.ws, row_major, st.out, is_last)
    };
    let st2 = StepState { ws: next.ws, out: next.out, used: st.used || next.used, ok: next.ok };
    assert(run_model(steps, k, st, row_major) == run_model(steps, k + 1, st2, row_major));
    if is_last {
        assert(next.used);
        assert(run_model(steps, k + 1, st2, row_major) == st2);
    } else {
        assert(next.out == st.out);
        if st2.ok {
            lemma_run_consumes_out(steps, k + 1, st2, row_major);
        } else {
            assert(run_model(steps, k + 1, st2, row_major) == st2);
        }
    }
}

/// Initial ghost state of a plan run.
pub open spec fn init_state(ws: Seq<(TblisTensor, bool)>, out: Option<TblisTensor>) -> StepState {
    StepState { ws: ws_models(ws), out: opt_model(out), used: false, ok: true }
}

/// Mapping the models commutes with replacing one entry.
proof fn lemma_ws_models_update(s: Seq<(TblisTensor, bool)>, i: int, e: (TblisTensor, bool))
    requires
        0 <= i < s.len(),
    ensures
        ws_models(s.update(i, e)) == ws_models(s).update(i, ((e.0).model(), e.1)),
{
    assert(ws_models(s.update(i, e)) =~= ws_models(s).update(i, ((e.0).model(), e.1)));
}

/// Mapping the models commutes with consuming two entries and appending
/// the result.
proof fn lemma_ws_models_consume2(s: Seq<(TblisTensor, bool)>, h: int, l: int, e: (TblisTensor, bool))
    requires
        0 <= l < h < s.len(),
    ensures
        ws_models(s.remove(h).remove(l).push(e)) == ws_models(s).remove(h).remove(l).push(
            (((e.0).model(), e.1)),
        ),
{
    assert(ws_models(s.remove(h).remove(l).push(e)) =~= ws_models(s).remove(h).remove(l).push(
        (((e.0).model(), e.1)),
    ));
}

/// Mapping the models commutes with consuming one entry and appending the
/// result.
proof fn lemma_ws_models_consume1(s: Seq<(TblisTensor, bool)>, i: int, e: (TblisTensor, bool))
    requires
        0 <= i < s.len(),
    ensures
        ws_models(s.remove(i).push(e)) == ws_models(s).remove(i).push((((e.0).model(), e.1))),
{
    assert(ws_models(s.remove(i).push(e)) =~= ws_models(s).remove(i).push((((e.0).model(), e.1))));
}

/// One binary contraction step: trace elimination on either operand, the
/// scalar short-circuits, or the pairwise multiply; consumes the two
/// inputs and appends the result, shrinking the working set by one.  The
/// result is exactly the step's model.
#[verifier::rlimit(100)]
#[verifier::spinoff_prover]
fn exec_binary_step(
    step: &TblisContractStep,
    ws: &mut Vec<(TblisTensor, bool)>,
    row_major: bool,
    out_tensor: &mut Option<TblisTensor>,
    is_last: bool,
) -> (r: Result<bool, TblisError>)
    requires
        step_ok_at(*step, old(ws)@.len() as int),
        step.indices@.len() == 2,
        ws_wf(old(ws)@),
        (*old(out_tensor)) matches Some(t) ==> t.wf(),
    ensures
        ws_wf(final(ws)@),
        r matches Ok(used) ==> final(ws)@.len() == old(ws)@.len() - 1,
        r matches Ok(used) ==> (used ==> (*old(out_tensor)) is Some && (*final(out_tensor))
            is None),
        r matches Ok(used) ==> (used ==> is_last),
        r matches Ok(used) ==> (used ==> ((*old(out_tensor)) matches Some(t) && (final(ws)@.last()).0.shape@ == t.shape@)),
        r matches Ok(used) ==> (!used ==> opt_tensor_eqv(*final(out_tensor), *old(out_tensor))),
        r is Err ==> opt_tensor_eqv(*final(out_tensor), *old(out_tensor)),
        ({
            let m = binary_step_model(
                *step,
                ws_models(old(ws)@),
                row_major,
                opt_model(*old(out_tensor)),
                is_last,
            );
            &&& (r is Ok <==> m.ok)
            &&& (r is Ok ==> ws_models(final(ws)@) == m.ws)
            &&& (r is Ok ==> opt_model(*final(out_tensor)) == m.out)
            &&& (r matches Ok(u) ==> u == m.used)
        }),
        (binary_traces_ok(*step, ws_models(old(ws)@), row_major) && is_last && ((*old(
            out_tensor,
        )) matches Some(t) && t.shape@ != step.shape_c@)) ==> r == Err::<bool, TblisError>(
            TblisError::OutputShapeMismatch,
        ),
        r matches Err(e) ==> (e != TblisError::UnsupportedSubscript && e
            != TblisError::UnknownStrategy),
{
    let ghost m = binary_step_model(
        *step,
        ws_models(old(ws)@),
        row_major,
        opt_model(*old(out_tensor)),
        is_last,
    );
    let i0 = step.indices[0];
    let i1 = step.indices[1];
    let ia0 = clone_chars(&step.idx_a);
    let ib0 = match &step.idx_b {
        Option::Some(v) => clone_chars(v),
        Option::None => {
            proof {
                assert(false);
            }
            Vec::new()
        },
    };
    // labels unique to one operand are summed out first
    let need_a = !all_covered2(&ia0, &ib0, &step.idx_c);
    let need_b = !all_covered2(&ib0, &ia0, &step.idx_c);
    let ka = filter_covered(&ia0, &ib0, &step.idx_c);
    let kb = filter_covered(&ib0, &ia0, &step.idx_c);
    let mut ia = ia0;
    let mut ib = ib0;
    if need_a {
        let ta = match tblis_trace_f(&ia, &ka, &ws[i0].0, row_major) {
            Result::Ok(t) => t,
            Result::Err(e) => {
                proof {
                    assert(!m.ok);
                }
                return Err(e);
            },
        };
        proof {
            lemma_ws_models_update(ws@, i0 as int, (ta, true));
        }
        ws.set(i0, (ta, true));
        ia = ka;
    }
    if need_b {
        let tb = match tblis_trace_f(&ib, &kb, &ws[i1].0, row_major) {
            Result::Ok(t) => t,
            Result::Err(e) => {
                proof {
                    assert(!m.ok);
                }
                return Err(e);
            },
        };
        proof {
            lemma_ws_models_update(ws@, i1 as int, (tb, true));
        }
        ws.set(i1, (tb, true));
        ib = kb;
    }
    // destination: the caller's buffer on the last step, else fresh
    let mut used_here = false;
    let mut dest: TblisTensor;
    if is_last && out_tensor.is_some() {
        let d = match out_tensor.take() {
            Option::Some(d) => d,
            Option::None => {
                proof {
                    assert(false);
                }
                return Err(TblisError::InvalidPlan);
            },
        };
        if !shapes_equal(&d.shape, &step.shape_c) {
            *out_tensor = Some(d);
            proof {
                assert(opt_tensor_eqv(*out_tensor, *old(out_tensor)));
                assert(!m.ok);
            }
            return Err(TblisError::OutputShapeMismatch);
        }
        dest = d;
        used_here = true;
    } else {
        let size = match checked_size(&step.shape_c) {
            Option::Some(sz) => sz,
            Option::None => {
                proof {
                    assert(!m.ok);
                }
                return Err(TblisError::TooLarge);
            },
        };
        let stv = match shape_to_stride(&step.shape_c, row_major) {
            Result::Ok(v) => v,
            Result::Err(e) => {
                proof {
                    assert(!m.ok);
                }
                return Err(e);
            },
        };
        let zeros = alloc_zeros(size);
        dest = TblisTensor::new(zeros, &step.shape_c, &stv);
        proof {
            lemma_fresh_wf(dest, row_major);
            assert(dest.data@ =~= zero_seq(prod_isize_from(step.shape_c@, 0)));
            assert(dest.model() == fresh_dest(step.shape_c@, row_major));
        }
    }
    // dispatch on fully reduced (scalar) operands
    let ea = ia.len() == 0;
    let eb = ib.len() == 0;
    let res: Result<(), TblisError> = if !ea && !eb {
        mult_chars_f(&ws[i0].0, &ia, &ws[i1].0, &ib, &mut dest, &step.idx_c, 1, 0)
    } else if ea && eb {
        match ws[i0].0.to_scalar() {
            Result::Ok(va) => match ws[i1].0.to_scalar() {
                Result::Ok(vb) => {
                    if dest.data.len() > 0 {
                        dest.data.set(0, va.wrapping_mul(vb));
                    }
                    Ok(())
                },
                Result::Err(e) => Err(e),
            },
            Result::Err(e) => Err(e),
        }
    } else if ea {
        match ws[i0].0.to_scalar() {
            Result::Ok(va) => add_chars_f(&ws[i1].0, &ib, &mut dest, &step.idx_c, va, 0),
            Result::Err(e) => Err(e),
        }
    } else {
        match ws[i1].0.to_scalar() {
            Result::Ok(vb) => add_chars_f(&ws[i0].0, &ia, &mut dest, &step.idx_c, vb, 0),
            Result::Err(e) => Err(e),
        }
    };
    match res {
        Result::Ok(()) => (),
        Result::Err(e) => {
            proof {
                assert(!m.ok);
            }
            if used_here {
                *out_tensor = Some(dest);
                proof {
                    assert(opt_tensor_eqv(*out_tensor, *old(out_tensor)));
                }
            }
            return Err(e);
        },
    }
    // consume the inputs (larger position first) and append the result
    let ghost ws_before = ws@;
    let (lo, hi) = if i0 < i1 {
        (i0, i1)
    } else {
        (i1, i0)
    };
    proof {
        lemma_ws_models_consume2(ws@, hi as int, lo as int, (dest, !used_here));
    }
    let _ = ws.remove(hi);
    let _ = ws.remove(lo);
    ws.push((dest, !used_here));
    proof {
        assert forall|q: int| 0 <= q < ws@.len() implies (#[trigger] ws@[q]).0.wf() by {
            if q + 1 == ws@.len() {
            } else {
                assert(ws@[q] == ws_before.remove(hi as int).remove(lo as int)[q]);
            }
        }
        assert(ws_models(ws@) == m.ws);
        assert(m.ok);
    }
    Ok(used_here)
}

/// One unary step: a transpose or reduction through the unary add, into
/// the caller's buffer on the last step or into a fresh contiguous
/// tensor; consumes its input and appends the result.  The result is
/// exactly the step's model.
#[verifier::rlimit(100)]
#[verifier::spinoff_prover]
fn exec_unary_step(
    step: &TblisContractStep,
    ws: &mut Vec<(TblisTensor, bool)>,
    row_major: bool,
    out_tensor: &mut Option<TblisTensor>,
    is_last: bool,
) -> (r: Result<bool, TblisError>)
    requires
        step_ok_at(*step, old(ws)@.len() as int),
        step.indices@.len() == 1,
        ws_wf(old(ws)@),
        (*old(out_tensor)) matches Some(t) ==> t.wf(),
    ensures
        ws_wf(final(ws)@),
        r matches Ok(used) ==> final(ws)@.len() == old(ws)@.len(),
        r matches Ok(used) ==> (used ==> (*old(out_tensor)) is Some && (*final(out_tensor))
            is None),
        r matches Ok(used) ==> (used ==> is_last),
        r matches Ok(used) ==> (used ==> ((*old(out_tensor)) matches Some(t) && (final(ws)@.last()).0.shape@ == t.shape@)),
        r matches Ok(used) ==> (!used ==> opt_tensor_eqv(*final(out_tensor), *old(out_tensor))),
        r is Err ==> opt_tensor_eqv(*final(out_tensor), *old(out_tensor)),
        ({
            let m = unary_step_model(
                *step,
                ws_models(old(ws)@),
                row_major,
                opt_model(*old(out_tensor)),
                is_last,
            );
            &&& (r is Ok <==> m.ok)
            &&& (r is Ok ==> ws_models(final(ws)@) == m.ws)
            &&& (r is Ok ==> opt_model(*final(out_tensor)) == m.out)
            &&& (r matches Ok(u) ==> u == m.used)
        }),
        (is_last && ((*old(out_tensor)) matches Some(t) && t.shape@ != step.shape_c@)) ==> r
            == Err::<bool, TblisError>(TblisError::OutputShapeMismatch),
        r matches Err(e) ==> (e != TblisError::UnsupportedSubscript && e
            != TblisError::UnknownStrategy),
{
    let ghost m = unary_step_model(
        *step,
        ws_models(old(ws)@),
        row_major,
        opt_model(*old(out_tensor)),
        is_last,
    );
    let i0 = step.indices[0];
    let mut used_here = false;
    let mut dest: TblisTensor;
    if is_last && out_tensor.is_some() {
        let d = match out_tensor.take() {
            Option::Some(d) => d,
            Option::None => {
                proof {
                    assert(false);
                }
                return Err(TblisError::InvalidPlan);
            },
        };
        if !shapes_equal(&d.shape, &step.shape_c) {
            *out_tensor = Some(d);
            proof {
                assert(opt_tensor_eqv(*out_tensor, *old(out_tensor)));
                assert(!m.ok);
            }
            return Err(TblisError::OutputShapeMismatch);
        }
        dest = d;
        used_here = true;
    } else {
        let size = match checked_size(&step.shape_c) {
            Option::Some(sz) => sz,
            Option::None => {
                proof {
                    assert(!m.ok);
                }
                return Err(TblisError::TooLarge);
            },
        };
        let stv = match shape_to_stride(&step.shape_c, row_major) {
            Result::Ok(v) => v,
            Result::Err(e) => {
                proof {
                    assert(!m.ok);
                }
                return Err(e);
            },
        };
        let zeros = alloc_zeros(size);
        dest = TblisTensor::new(zeros, &step.shape_c, &stv);
        proof {
            lemma_fresh_wf(dest, row_major);
            assert(dest.data@ =~= zero_seq(prod_isize_from(step.shape_c@, 0)));
            assert(dest.model() == fresh_dest(step.shape_c@, row_major));
        }
    }
    match add_chars_f(&ws[i0].0, &step.idx_a, &mut dest, &step.idx_c, 1, 0) {
        Result::Ok(()) => (),
        Result::Err(e) => {
            proof {
                assert(!m.ok);
            }
            if used_here {
                *out_tensor = Some(dest);
                proof {
                    assert(opt_tensor_eqv(*out_tensor, *old(out_tensor)));
                }
            }
            return Err(e);
        },
    }
    let ghost ws_before = ws@;
    proof {
        lemma_ws_models_consume1(ws@, i0 as int, (dest, !used_here));
    }
    let _ = ws.remove(i0);
    ws.push((dest, !used_here));
    proof {
        assert forall|q: int| 0 <= q < ws@.len() implies (#[trigger] ws@[q]).0.wf() by {
            if q + 1 == ws@.len() {
            } else {
                assert(ws@[q] == ws_before.remove(i0 as int)[q]);
            }
        }
        assert(ws_models(ws@) == m.ws);
        assert(m.ok);
    }
    Ok(used_here)
}

/// Execute the steps of a validated plan against the working set.  Each
/// binary step first sums out the labels unique to one operand (the trace
/// elimination), then dispatches on scalar operands or runs the pairwise
/// multiply; each unary step is a transpose or reduction through the unary
/// add.  On the final step a caller-supplied output tensor of matching
/// shape becomes the destination.  The working set shrinks by one tensor
/// per binary step and collapses to exactly one live entry; the final
/// state is exactly the plan's model, step by step, and the returned flag
/// says whether the final step wrote into the caller's output tensor.
#[verifier::rlimit(100)]
#[verifier::spinoff_prover]
pub fn tblis_einsum_run(
    steps: &Vec<TblisContractStep>,
    ws: &mut Vec<(TblisTensor, bool)>,
    row_major: bool,
    out_tensor: &mut Option<TblisTensor>,
) -> (r: Result<bool, TblisError>)
    requires
        plan_ok(steps@, old(ws)@.len() as int),
        ws_wf(old(ws)@),
        (*old(out_tensor)) matches Some(t) ==> t.wf(),
    ensures
        ws_wf(final(ws)@),
        r matches Ok(used) ==> final(ws)@.len() == 1,
        r matches Ok(used) ==> (used ==> (*old(out_tensor)) is Some && (*final(out_tensor)) is None),
        r matches Ok(used) ==> (used ==> ((*old(out_tensor)) matches Some(t) && (final(ws)@[0]).0.shape@ == t.shape@)),
        r matches Ok(used) ==> (!used ==> opt_tensor_eqv(*final(out_tensor), *old(out_tensor))),
        r is Err ==> opt_tensor_eqv(*final(out_tensor), *old(out_tensor)),
        ({
            let m = run_model(steps@, 0, init_state(old(ws)@, *old(out_tensor)), row_major);
            &&& (r is Ok <==> m.ok)
            &&& (r is Ok ==> ws_models(final(ws)@) == m.ws)
            &&& (r is Ok ==> opt_model(*final(out_tensor)) == m.out)
            &&& (r matches Ok(u) ==> u == m.used)
        }),
        r matches Err(e) ==> (e != TblisError::UnsupportedSubscript && e
            != TblisError::UnknownStrategy),
{
    let ghost n0 = old(ws)@.len() as int;
    let ghost init = init_state(old(ws)@, *old(out_tensor));
    let ns = steps.len();
    let mut used = false;
    let mut k: usize = 0;
    proof {
        assert(init == (StepState {
            ws: ws_models(ws@),
            out: opt_model(*out_tensor),
            used: false,
            ok: true,
        }));
    }
    while k < ns
        invariant
            0 <= k <= ns,
            ns == steps@.len(),
            plan_ok(steps@, n0),
            ws@.len() as int == remaining(steps@, k as int, n0),
            ws_wf(ws@),
            (*old(out_tensor)) matches Some(t) ==> t.wf(),
            used ==> k == ns,
            !used ==> opt_tensor_eqv(*out_tensor, *old(out_tensor)),
            used ==> (*old(out_tensor)) is Some && (*out_tensor) is None,
            used ==> ((*old(out_tensor)) matches Some(t) && ws@.len() >= 1 && ws@[ws@.len()
                - 1].0.shape@ == t.shape@),
            init == init_state(old(ws)@, *old(out_tensor)),
            run_model(steps@, 0, init, row_major) == run_model(
                steps@,
                k as int,
                StepState { ws: ws_models(ws@), out: opt_model(*out_tensor), used: used, ok: true },
                row_major,
            ),
        decreases ns - k,
    {
        proof {
            assert(step_ok_at(steps@[k as int], remaining(steps@, k as int, n0)));
        }
        let ghost cur = StepState {
            ws: ws_models(ws@),
            out: opt_model(*out_tensor),
            used: used,
            ok: true,
        };
        let ghost entry_out = *out_tensor;
        let is_last = k == ns - 1;
        let nidx = steps[k].indices.len();
        let stepres = if nidx == 2 {
            exec_binary_step(&steps[k], ws, row_major, out_tensor, is_last)
        } else {
            exec_unary_step(&steps[k], ws, row_major, out_tensor, is_last)
        };
        proof {
            let next = if nidx == 2 {
                binary_step_model(steps@[k as int], cur.ws, row_major, cur.out, is_last)
            } else {
                unary_step_model(steps@[k as int], cur.ws, row_major, cur.out, is_last)
            };
            assert(run_model(steps@, k as int, cur, row_major) == run_model(
                steps@,
                k as int + 1,
                StepState {
                    ws: next.ws,
                    out: next.out,
                    used: cur.used || next.used,
                    ok: next.ok,
                },
                row_major,
            ));
        }
        match stepres {
            Result::Ok(u) => {
                if u {
                    used = true;
                    proof {
                        assert(remaining(steps@, ns as int, n0) == 1);
                        match entry_out {
                            Option::Some(t_entry) => match *old(out_tensor) {
                                Option::Some(t_run) => {
                                    assert(tensor_eqv(t_entry, t_run));
                                    assert((ws@.last()).0.shape@ == t_entry.shape@);
                                    assert(ws@[ws@.len() - 1].0.shape@ == t_run.shape@);
                                },
                                Option::None => (),
                            },
                            Option::None => (),
                        }
                    }
                }
            },
            Result::Err(e) => {
                proof {
                    let next = if nidx == 2 {
                        binary_step_model(steps@[k as int], cur.ws, row_major, cur.out, is_last)
                    } else {
                        unary_step_model(steps@[k as int], cur.ws, row_major, cur.out, is_last)
                    };
                    assert(!next.ok);
                    assert(!run_model(steps@, 0, init, row_major).ok);
                }
                return Err(e);
            },
        }
        k += 1;
    }
    proof {
        assert(run_model(steps@, 0, init, row_major) == (StepState {
            ws: ws_models(ws@),
            out: opt_model(*out_tensor),
            used: used,
            ok: true,
        }));
    }
    Ok(used)
}

/// Perform an einsum contraction: the path optimizer chooses a pairwise
/// order, and the executor runs it over the working set of live tensors.
///
/// With a caller-supplied output tensor whose shape matches the final
/// step's result shape, the result is written into that buffer and the
/// call returns `None`; otherwise the owned result tensor is returned.
/// A plan that finishes without producing a tensor this crate owns (an
/// empty plan over a single operand) is an error.
pub fn tblis_einsum_f(
    subscripts: &str,
    operands: &Vec<TblisTensor>,
    optimize: &str,
    memory_limit: &TblisMemLimit,
    row_major: bool,
    out_tensor: &mut Option<TblisTensor>,
) -> (r: Result<Option<TblisTensor>, TblisError>)
    requires
        forall|i: int| 0 <= i < operands@.len() ==> (#[trigger] operands@[i]).wf(),
        (*old(out_tensor)) matches Some(t) ==> t.wf(),
    ensures
        r == Ok::<Option<TblisTensor>, TblisError>(None) ==> ((*old(out_tensor)) matches Some(t)
            && ((*final(out_tensor)) matches Some(t2) && t2.wf() && t2.shape@ == t.shape@)),
        r matches Ok(res) ==> (res matches Some(t) ==> t.wf() && opt_tensor_eqv(
            *final(out_tensor),
            *old(out_tensor),
        )),
        r is Err ==> opt_tensor_eqv(*final(out_tensor), *old(out_tensor)),
        r == Err::<Option<TblisTensor>, TblisError>(TblisError::UnsupportedSubscript)
            <==> !subscript_ok(subscripts@),
        r == Err::<Option<TblisTensor>, TblisError>(TblisError::UnknownStrategy) <==> (
        subscript_ok(subscripts@) && !known_strategy(optimize@)),
        ((*old(out_tensor)) is Some && r is Ok) ==> r == Ok::<Option<TblisTensor>, TblisError>(
            None,
        ),
{
    // operand shapes for the path optimizer, dimension by dimension
    let nop = operands.len();
    let mut shapes: Vec<Vec<usize>> = Vec::new();
    let mut i: usize = 0;
    while i < nop
        invariant
            0 <= i <= nop,
            nop == operands@.len(),
            forall|q: int| 0 <= q < operands@.len() ==> (#[trigger] operands@[q]).wf(),
            shapes@.len() == i,
            forall|q: int|
                0 <= q < i ==> (#[trigger] shapes@[q])@.len() == operands@[q].shape@.len(),
            forall|q: int, j: int|
                0 <= q < i && 0 <= j < shapes@[q]@.len() ==> (#[trigger] shapes@[q]@[j]) as int
                    == operands@[q].shape@[j] as int,
        decreases nop - i,
    {
        let rank = operands[i].shape.len();
        let mut sh: Vec<usize> = Vec::new();
        let mut j: usize = 0;
        while j < rank
            invariant
                0 <= j <= rank,
                0 <= i < nop,
                nop == operands@.len(),
                forall|q: int| 0 <= q < operands@.len() ==> (#[trigger] operands@[q]).wf(),
                rank == operands@[i as int].shape@.len(),
                sh@.len() == j,
                forall|q: int|
                    0 <= q < j ==> (#[trigger] sh@[q]) as int == (operands@[i as int].shape@[q]) as int,
            decreases rank - j,
        {
            let d = operands[i].shape[j];
            sh.push(d as usize);
            j += 1;
        }
        shapes.push(sh);
        i += 1;
    }
    let steps = match tblis_einsum_prep_f(subscripts, &shapes, optimize, memory_limit) {
        Result::Ok(s) => s,
        Result::Err(e) => {
            return Err(e);
        },
    };
    if !validate_plan(&steps, nop) {
        return Err(TblisError::InvalidPlan);
    }
    // the working set starts as the caller's operands, borrowed
    let mut ws: Vec<(TblisTensor, bool)> = Vec::new();
    let mut t: usize = 0;
    while t < nop
        invariant
            0 <= t <= nop,
            nop == operands@.len(),
            forall|q: int| 0 <= q < operands@.len() ==> (#[trigger] operands@[q]).wf(),
            ws@.len() == t,
            ws_wf(ws@),
            forall|q: int| 0 <= q < ws@.len() ==> (#[trigger] ws@[q]).1 == false,
        decreases nop - t,
    {
        let ghost wsp = ws@;
        let cl = operands[t].clone();
        proof {
            assert(cl.wf());
        }
        ws.push((cl, false));
        proof {
            assert forall|m: int| 0 <= m < ws@.len() implies (#[trigger] ws@[m]).0.wf() by {
                if m < wsp.len() {
                    assert(ws@[m] == wsp[m]);
                }
            }
        }
        t += 1;
    }
    let ghost ws0 = ws@;
    let ghost out0 = *out_tensor;
    let used = match tblis_einsum_run(&steps, &mut ws, row_major, out_tensor) {
        Result::Ok(u) => u,
        Result::Err(e) => {
            return Err(e);
        },
    };
    let entry = match ws.pop() {
        Option::Some(e) => e,
        Option::None => {
            proof {
                assert(false);
            }
            return Err(TblisError::InvalidPlan);
        },
    };
    let (tensor, owned) = entry;
    if used {
        *out_tensor = Some(tensor);
        Ok(None)
    } else if owned {
        proof {
            // with a supplied buffer, a successful run must have consumed
            // it, or the plan was empty and every entry stayed borrowed
            if (*old(out_tensor)) is Some {
                let m = run_model(steps@, 0, init_state(ws0, out0), row_major);
                if steps@.len() > 0 {
                    lemma_run_consumes_out(steps@, 0, init_state(ws0, out0), row_major);
                    assert(false);
                } else {
                    assert(m == init_state(ws0, out0));
                    assert(owned == ws_models(ws0)[0].1);
                    assert(false);
                }
            }
        }
        Ok(Some(tensor))
    } else {
        Err(TblisError::NoOwnedResult)
    }
}


} // verus!
