use vstd::prelude::*;
use crate::text::{chars_of, push_all, string_of};

verus! {

/// `p` occurs in `s` starting at index `i`.
pub open spec fn matches_at(s: Seq<char>, i: int, p: Seq<char>) -> bool {
    0 <= i && i + p.len() <= s.len() && s.subrange(i, i + p.len()) == p
}

/// `s` with every occurrence of `p` replaced by `r`, scanning left to right
/// and never matching inside text already replaced.
pub open spec fn replace_all(s: Seq<char>, p: Seq<char>, r: Seq<char>) -> Seq<char>
    decreases s.len(),
{
    if s.len() == 0 || p.len() == 0 {
        s
    } else if matches_at(s, 0, p) {
        r + replace_all(s.subrange(p.len() as int, s.len() as int), p, r)
    } else {
        seq![s[0]] + replace_all(s.subrange(1, s.len() as int), p, r)
    }
}

/// Number of cleanup rules.
pub const RULE_COUNT: usize = 6;

/// The cleanup rules of application names, as (pattern, replacement) pairs,
/// applied in this order.
pub open spec fn name_rules() -> Seq<(Seq<char>, Seq<char>)> {
    seq![
        (seq!['.', 'a', 'p', 'p'], seq![]),
        (seq![' ', 'H', 'e', 'l', 'p', 'e', 'r'], seq![]),
        (seq![' ', '(', 'R', 'e', 'n', 'd', 'e', 'r', 'e', 'r', ')'], seq![]),
        (seq![' ', '(', 'G', 'P', 'U', ')'], seq![]),
        (
            seq!['c', 'o', 'm', '.', 'd', 'o', 'c', 'k', 'e', 'r', '.'],
            seq!['D', 'o', 'c', 'k', 'e', 'r', ' '],
        ),
        (seq!['c', 'o', 'm', '.', 'a', 'p', 'p', 'l', 'e', '.'], seq![]),
    ]
}

/// `s` after the first `n` cleanup rules.
pub open spec fn apply_rules(s: Seq<char>, n: nat) -> Seq<char>
    decreases n,
{
    if n == 0 {
        s
    } else {
        let rule = name_rules()[n - 1];
        replace_all(apply_rules(s, (n - 1) as nat), rule.0, rule.1)
    }
}

/// Index of the last `'/'` in `s` before index `i`, or `-1` if there is none.
pub open spec fn slash_before(s: Seq<char>, i: int) -> int
    decreases i,
{
    if i <= 0 {
        -1
    } else if s[i - 1] == '/' {
        i - 1
    } else {
        slash_before(s, i - 1)
    }
}

/// What follows the last `'/'` of `s`; all of `s` if it holds none.
pub open spec fn last_segment(s: Seq<char>) -> Seq<char> {
    s.subrange(slash_before(s, s.len() as int) + 1, s.len() as int)
}

/// The application identity of a raw process name.
pub open spec fn normalized_name(s: Seq<char>) -> Seq<char> {
    last_segment(apply_rules(s, name_rules().len()))
}

/// Whether `p` occurs in `s` at index `i`.
fn matches_at_exec(s: &Vec<char>, i: usize, p: &Vec<char>) -> (r: bool)
    requires
        i <= s@.len(),
    ensures
        r == matches_at(s@, i as int, p@),
{
    if p.len() > s.len() - i {
        return false;
    }
    let mut j: usize = 0;
    while j < p.len()
        invariant
            i + p@.len() <= s@.len(),
            s@.len() <= usize::MAX,
            j <= p@.len(),
            forall|k: int| 0 <= k < j ==> s@[i + k] == p@[k],
        decreases p@.len() - j,
    {
        if s[i + j] != p[j] {
            assert(s@.subrange(i as int, i + p@.len())[j as int] != p@[j as int]);
            return false;
        }
        j += 1;
    }
    assert(s@.subrange(i as int, i + p@.len()) =~= p@);
    true
}

/// `s` with every occurrence of `p` replaced by `r`, left to right.
pub fn replace_chars(s: &Vec<char>, p: &Vec<char>, r: &Vec<char>) -> (out: Vec<char>)
    ensures
        out@ == replace_all(s@, p@, r@),
{
    if p.len() == 0 {
        return s.clone();
    }
    let mut out: Vec<char> = Vec::new();
    let mut i: usize = 0;
    assert(s@.subrange(0, s@.len() as int) =~= s@);
    assert(out@ + s@ =~= s@);
    while i < s.len()
        invariant
            p@.len() > 0,
            i <= s@.len(),
            out@ + replace_all(s@.subrange(i as int, s@.len() as int), p@, r@) == replace_all(
                s@,
                p@,
                r@,
            ),
        decreases s@.len() - i,
    {
        let ghost rest = s@.subrange(i as int, s@.len() as int);
        if matches_at_exec(s, i, p) {
            assert(rest.subrange(0, p@.len() as int) =~= s@.subrange(i as int, i + p@.len()));
            assert(rest.subrange(p@.len() as int, rest.len() as int) =~= s@.subrange(
                i + p@.len(),
                s@.len() as int,
            ));
            let ghost before = out@;
            push_all(&mut out, r);
            i += p.len();
            let ghost tail = replace_all(s@.subrange(i as int, s@.len() as int), p@, r@);
            assert(out@ + tail =~= before + (r@ + tail));
        } else {
            proof {
                if p@.len() <= rest.len() {
                    assert(rest.subrange(0, p@.len() as int) =~= s@.subrange(
                        i as int,
                        i + p@.len(),
                    ));
                }
            }
            assert(rest.subrange(1, rest.len() as int) =~= s@.subrange(
                i + 1,
                s@.len() as int,
            ));
            let ghost before = out@;
            out.push(s[i]);
            i += 1;
            let ghost tail = replace_all(s@.subrange(i as int, s@.len() as int), p@, r@);
            assert(out@ + tail =~= before + (seq![rest[0]] + tail));
        }
    }
    assert(s@.subrange(i as int, s@.len() as int) =~= Seq::<char>::empty());
    assert(out@ + Seq::<char>::empty() =~= out@);
    out
}

/// The cleanup rule at `index`, as a pattern and its replacement.
fn name_rule(index: usize) -> (r: (Vec<char>, Vec<char>))
    requires
        index < name_rules().len(),
    ensures
        r.0@ == name_rules()[index as int].0,
        r.1@ == name_rules()[index as int].1,
{
    let r: (Vec<char>, Vec<char>) = if index == 0 {
        (vec!['.', 'a', 'p', 'p'], vec![])
    } else if index == 1 {
        (vec![' ', 'H', 'e', 'l', 'p', 'e', 'r'], vec![])
    } else if index == 2 {
        (vec![' ', '(', 'R', 'e', 'n', 'd', 'e', 'r', 'e', 'r', ')'], vec![])
    } else if index == 3 {
        (vec![' ', '(', 'G', 'P', 'U', ')'], vec![])
    } else if index == 4 {
        (
            vec!['c', 'o', 'm', '.', 'd', 'o', 'c', 'k', 'e', 'r', '.'],
            vec!['D', 'o', 'c', 'k', 'e', 'r', ' '],
        )
    } else {
        (vec!['c', 'o', 'm', '.', 'a', 'p', 'p', 'l', 'e', '.'], vec![])
    };
    assert(r.0@ =~= name_rules()[index as int].0);
    assert(r.1@ =~= name_rules()[index as int].1);
    r
}

/// What follows the last `'/'` of `s`; a copy of `s` if it holds none.
pub fn last_segment_chars(s: &Vec<char>) -> (r: Vec<char>)
    ensures
        r@ == last_segment(s@),
{
    let mut i: usize = s.len();
    while i > 0 && s[i - 1] != '/'
        invariant
            i <= s@.len(),
            slash_before(s@, i as int) == slash_before(s@, s@.len() as int),
        decreases i,
    {
        i -= 1;
    }
    let mut out: Vec<char> = Vec::new();
    let mut j: usize = i;
    while j < s.len()
        invariant
            i <= j <= s@.len(),
            slash_before(s@, s@.len() as int) + 1 == i,
            out@ == s@.subrange(i as int, j as int),
        decreases s@.len() - j,
    {
        out.push(s[j]);
        j += 1;
        assert(out@ =~= s@.subrange(i as int, j as int));
    }
    out
}

/// The application identity of a raw process name: the cleanup rules applied
/// in order, then only what follows the last `'/'`.
pub fn extract_app_name(process_name: &str) -> (r: String)
    ensures
        r@ == normalized_name(process_name@),
{
    let mut cleaned = chars_of(process_name);
    let mut k: usize = 0;
    while k < RULE_COUNT
        invariant
            name_rules().len() == RULE_COUNT,
            k <= RULE_COUNT,
            cleaned@ == apply_rules(process_name@, k as nat),
        decreases RULE_COUNT - k,
    {
        let (pattern, replacement) = name_rule(k);
        cleaned = replace_chars(&cleaned, &pattern, &replacement);
        k += 1;
    }
    string_of(&last_segment_chars(&cleaned))
}

/// `p` occurs somewhere in `s`.
pub open spec fn occurs_in(s: Seq<char>, p: Seq<char>) -> bool {
    exists|i: int| matches_at(s, i, p)
}

/// `s` holds none of the patterns of the cleanup rules.
pub open spec fn free_of_patterns(s: Seq<char>) -> bool {
    forall|k: int| 0 <= k < name_rules().len() ==> !occurs_in(s, #[trigger] name_rules()[k].0)
}

proof fn lemma_replace_absent(s: Seq<char>, p: Seq<char>, r: Seq<char>)
    requires
        !occurs_in(s, p),
    ensures
        replace_all(s, p, r) == s,
    decreases s.len(),
{
    if s.len() > 0 && p.len() > 0 {
        let tail = s.subrange(1, s.len() as int);
        assert(!matches_at(s, 0, p));
        assert forall|i: int| !matches_at(tail, i, p) by {
            if matches_at(tail, i, p) {
                assert(s.subrange(i + 1, i + 1 + p.len()) =~= tail.subrange(i, i + p.len()));
                assert(matches_at(s, i + 1, p));
            }
        }
        lemma_replace_absent(tail, p, r);
        assert(seq![s[0]] + tail =~= s);
    }
}

proof fn lemma_rules_keep_free(s: Seq<char>, n: nat)
    requires
        free_of_patterns(s),
        n <= name_rules().len(),
    ensures
        apply_rules(s, n) == s,
    decreases n,
{
    if n > 0 {
        lemma_rules_keep_free(s, (n - 1) as nat);
        let rule = name_rules()[n - 1];
        assert(!occurs_in(s, name_rules()[n - 1].0));
        lemma_replace_absent(s, rule.0, rule.1);
    }
}

proof fn lemma_no_slash_after(s: Seq<char>, i: int)
    requires
        0 <= i <= s.len(),
    ensures
        -1 <= slash_before(s, i) < i,
        forall|j: int| slash_before(s, i) < j < i ==> s[j] != '/',
    decreases i,
{
    if i > 0 && s[i - 1] != '/' {
        lemma_no_slash_after(s, i - 1);
    }
}

proof fn lemma_slash_free(s: Seq<char>, i: int)
    requires
        0 <= i <= s.len(),
        forall|j: int| 0 <= j < s.len() ==> s[j] != '/',
    ensures
        slash_before(s, i) == -1,
    decreases i,
{
    if i > 0 {
        lemma_slash_free(s, i - 1);
    }
}

/// A name that holds none of the cleanup patterns is normalized to what
/// follows its last `'/'`, and normalizing that again changes nothing.
pub proof fn lemma_normalize_idempotent(s: Seq<char>)
    requires
        free_of_patterns(s),
    ensures
        normalized_name(s) == last_segment(s),
        normalized_name(normalized_name(s)) == normalized_name(s),
{
    lemma_rules_keep_free(s, name_rules().len());
    let m = slash_before(s, s.len() as int);
    lemma_no_slash_after(s, s.len() as int);
    let t = s.subrange(m + 1, s.len() as int);
    assert forall|k: int| 0 <= k < name_rules().len() implies !occurs_in(
        t,
        #[trigger] name_rules()[k].0,
    ) by {
        let p = name_rules()[k].0;
        assert(!occurs_in(s, p));
        assert forall|i: int| !matches_at(t, i, p) by {
            if matches_at(t, i, p) {
                assert(s.subrange(m + 1 + i, m + 1 + i + p.len()) =~= t.subrange(i, i + p.len()));
                assert(matches_at(s, m + 1 + i, p));
            }
        }
    }
    lemma_rules_keep_free(t, name_rules().len());
    assert forall|j: int| 0 <= j < t.len() implies t[j] != '/' by {
        assert(t[j] == s[m + 1 + j]);
    }
    lemma_slash_free(t, t.len() as int);
    assert(t.subrange(0, t.len() as int) =~= t);
}

} // verus!
