//! Branch-name handling: normalizing issue titles into branch-safe tokens
//! and bumping the trailing version suffix of a branch name.

use vstd::prelude::*;
use vstd::pervasive::unreached;
use crate::text::{
    chars_to_string,
    dec_rep,
    digit_char,
    digit_val,
    digits_value,
    is_digit_char,
    is_word_char,
    lemma_digits_value_take,
    push_decimal,
    str_chars,
    word_char,
};

verus! {

/// One step of normalization, reading the input left to right.
///
/// `started` records whether any word character has been emitted yet;
/// `pending` records whether a separator is owed before the next word
/// character. A run of non-word characters after at least one emitted word
/// character owes a single `'-'`, paid only when another word character
/// arrives, so trailing separators never appear.
pub open spec fn norm_state(s: Seq<char>, started: bool, pending: bool) -> Seq<char>
    decreases s.len(),
{
    if s.len() == 0 {
        Seq::empty()
    } else if is_word_char(s[0]) {
        (if pending {
            seq!['-']
        } else {
            Seq::empty()
        }) + seq![s[0]] + norm_state(s.drop_first(), true, false)
    } else {
        norm_state(s.drop_first(), started, started)
    }
}

/// The normalized form of a title: every maximal run of non-word characters
/// collapses to a single `'-'`, with no leading or trailing separator.
pub open spec fn normalized_title(s: Seq<char>) -> Seq<char> {
    norm_state(s, false, false)
}

/// The shape every normalized title has: only word characters and `'-'`,
/// no two adjacent `'-'`, and a word character at each end.
pub open spec fn separator_free(t: Seq<char>) -> bool {
    &&& forall|i: int| 0 <= i < t.len() ==> is_word_char(t[i]) || t[i] == '-'
    &&& t.len() > 0 ==> is_word_char(t[t.len() - 1])
    &&& forall|i: int| 0 <= i < t.len() - 1 ==> !((#[trigger] t[i]) == '-' && t[i + 1] == '-')
}

proof fn lemma_norm_state_shape(s: Seq<char>, started: bool, pending: bool)
    requires
        pending ==> started,
    ensures
        separator_free(norm_state(s, started, pending)),
        !started && norm_state(s, started, pending).len() > 0 ==> is_word_char(
            norm_state(s, started, pending)[0],
        ),
        norm_state(s, started, pending).len() > 0 && norm_state(s, started, pending)[0] == '-'
            ==> norm_state(s, started, pending).len() >= 2 && is_word_char(
            norm_state(s, started, pending)[1],
        ),
        norm_state(s, started, pending).len() > 0 <==> exists|i: int|
            0 <= i < s.len() && is_word_char(s[i]),
    decreases s.len(),
{
    let r = norm_state(s, started, pending);
    if s.len() == 0 {
    } else if is_word_char(s[0]) {
        lemma_norm_state_shape(s.drop_first(), true, false);
        let rest = norm_state(s.drop_first(), true, false);
        let pre: Seq<char> = if pending {
            seq!['-']
        } else {
            Seq::empty()
        };
        assert(r == pre + seq![s[0]] + rest);
        assert(r.len() > 0) by {
            assert(r[pre.len() as int] == s[0]);
        }
        if pending {
            assert(r[0] == '-');
            assert(r[1] == s[0]);
        } else {
            assert(r[0] == s[0]);
        }
        assert(is_word_char(s[0]));
        assert(exists|i: int| 0 <= i < s.len() && is_word_char(s[i])) by {
            assert(is_word_char(s[0]));
        }
        assert forall|i: int| 0 <= i < r.len() implies is_word_char(r[i]) || r[i] == '-' by {
            if i < pre.len() {
                assert(r[i] == '-');
            } else if i == pre.len() {
                assert(r[i] == s[0]);
            } else {
                assert(r[i] == rest[i - pre.len() - 1]);
            }
        }
        assert(is_word_char(r[r.len() - 1])) by {
            if rest.len() == 0 {
                assert(r[r.len() - 1] == s[0]);
            } else {
                assert(r[r.len() - 1] == rest[rest.len() - 1]);
            }
        }
        assert forall|i: int| 0 <= i < r.len() - 1 implies !((#[trigger] r[i]) == '-' && r[i + 1] == '-') by {
            if i < pre.len() {
                assert(r[i + 1] == s[0]);
            } else if i == pre.len() {
                assert(r[i] == s[0]);
            } else if i == pre.len() + 1 && rest.len() > 0 {
                assert(r[i] == rest[0]);
                if rest[0] == '-' {
                    assert(is_word_char(rest[1]));
                    assert(r[i + 1] == rest[1]);
                }
            } else {
                assert(r[i] == rest[i - pre.len() - 1]);
                assert(r[i + 1] == rest[i - pre.len()]);
            }
        }
    } else {
        lemma_norm_state_shape(s.drop_first(), started, started);
        assert(r == norm_state(s.drop_first(), started, started));
        assert((exists|i: int| 0 <= i < s.len() && is_word_char(s[i])) <==> (exists|i: int|
            0 <= i < s.drop_first().len() && is_word_char(s.drop_first()[i]))) by {
            if exists|i: int| 0 <= i < s.len() && is_word_char(s[i]) {
                let i = choose|i: int| 0 <= i < s.len() && is_word_char(s[i]);
                assert(i != 0);
                assert(s.drop_first()[i - 1] == s[i]);
            }
            if exists|i: int| 0 <= i < s.drop_first().len() && is_word_char(s.drop_first()[i]) {
                let i = choose|i: int|
                    0 <= i < s.drop_first().len() && is_word_char(s.drop_first()[i]);
                assert(s[i + 1] == s.drop_first()[i]);
            }
        }
    }
}

proof fn lemma_tail_fixpoint(t: Seq<char>)
    requires
        separator_free(t),
    ensures
        norm_state(t, true, false) == t,
    decreases t.len(),
{
    if t.len() == 0 {
        assert(norm_state(t, true, false) =~= t);
    } else if is_word_char(t[0]) {
        assert(separator_free(t.drop_first())) by {
            let d = t.drop_first();
            assert forall|i: int| 0 <= i < d.len() implies is_word_char(d[i]) || d[i] == '-' by {
                assert(d[i] == t[i + 1]);
            }
            assert forall|i: int| 0 <= i < d.len() - 1 implies !((#[trigger] d[i]) == '-' && d[i + 1] == '-') by {
                assert(d[i] == t[i + 1]);
                assert(d[i + 1] == t[i + 2]);
            }
            if d.len() > 0 {
                assert(d[d.len() - 1] == t[t.len() - 1]);
            }
        }
        lemma_tail_fixpoint(t.drop_first());
        assert(Seq::<char>::empty() + seq![t[0]] + t.drop_first() =~= t);
    } else {
        // The head is a separator; a word character must follow it.
        assert(t[0] == '-');
        assert(t.len() >= 2) by {
            assert(is_word_char(t[t.len() - 1]));
        }
        assert(is_word_char(t[1])) by {
            assert(!(t[0] == '-' && t[1] == '-'));
            if t.len() == 2 {
                assert(is_word_char(t[1]));
            }
        }
        let d = t.drop_first();
        assert(norm_state(t, true, false) == norm_state(d, true, true));
        assert(d.len() > 0 && is_word_char(d[0])) by {
            assert(d[0] == t[1]);
        }
        assert(norm_state(d, true, true) == seq!['-'] + seq![d[0]] + norm_state(
            d.drop_first(),
            true,
            false,
        ));
        assert(separator_free(t.skip(2))) by {
            let k = t.skip(2);
            assert forall|i: int| 0 <= i < k.len() implies is_word_char(k[i]) || k[i] == '-' by {
                assert(k[i] == t[i + 2]);
            }
            assert forall|i: int| 0 <= i < k.len() - 1 implies !((#[trigger] k[i]) == '-' && k[i + 1] == '-') by {
                assert(k[i] == t[i + 2]);
                assert(k[i + 1] == t[i + 3]);
            }
            if k.len() > 0 {
                assert(k[k.len() - 1] == t[t.len() - 1]);
            }
        }
        assert(d.drop_first() =~= t.skip(2));
        lemma_tail_fixpoint(t.skip(2));
        assert(seq!['-'] + seq![d[0]] + t.skip(2) =~= t);
    }
}

/// Normalizing a title twice gives the same result as normalizing it once.
pub proof fn lemma_normalize_idempotent(s: Seq<char>)
    ensures
        normalized_title(normalized_title(s)) == normalized_title(s),
{
    let r = normalized_title(s);
    lemma_norm_state_shape(s, false, false);
    if r.len() == 0 {
        assert(normalized_title(r) =~= r);
    } else {
        assert(is_word_char(r[0]));
        assert(separator_free(r.drop_first())) by {
            let d = r.drop_first();
            assert forall|i: int| 0 <= i < d.len() implies is_word_char(d[i]) || d[i] == '-' by {
                assert(d[i] == r[i + 1]);
            }
            assert forall|i: int| 0 <= i < d.len() - 1 implies !((#[trigger] d[i]) == '-' && d[i + 1] == '-') by {
                assert(d[i] == r[i + 1]);
                assert(d[i + 1] == r[i + 2]);
            }
            if d.len() > 0 {
                assert(d[d.len() - 1] == r[r.len() - 1]);
            }
        }
        lemma_tail_fixpoint(r.drop_first());
        assert(normalized_title(r) == Seq::<char>::empty() + seq![r[0]] + r.drop_first());
        assert(Seq::<char>::empty() + seq![r[0]] + r.drop_first() =~= r);
    }
}

/// A normalized title holds only word characters and single `'-'`
/// separators, with a word character at each end; it is empty exactly when
/// the input holds no word character at all.
pub proof fn lemma_normalize_shape(s: Seq<char>)
    ensures
        separator_free(normalized_title(s)),
        normalized_title(s).len() > 0 ==> is_word_char(normalized_title(s)[0]),
        normalized_title(s).len() > 0 <==> exists|i: int| 0 <= i < s.len() && is_word_char(s[i]),
{
    lemma_norm_state_shape(s, false, false);
}

fn normalize_chars(s: &Vec<char>) -> (r: Vec<char>)
    ensures
        r@ == normalized_title(s@),
{
    let mut out: Vec<char> = Vec::new();
    let mut started = false;
    let mut pending = false;
    let mut i: usize = 0;
    proof {
        assert(s@.skip(0) =~= s@);
    }
    while i < s.len()
        invariant
            i <= s@.len(),
            pending ==> started,
            normalized_title(s@) == out@ + norm_state(s@.skip(i as int), started, pending),
        decreases s@.len() - i,
    {
        let c = s[i];
        proof {
            assert(s@.skip(i as int)[0] == s@[i as int]);
            assert(s@.skip(i as int).drop_first() =~= s@.skip(i + 1));
        }
        let ghost prev = out@;
        if word_char(c) {
            if pending {
                out.push('-');
            }
            out.push(c);
            proof {
                if pending {
                    assert(out@ =~= prev + seq!['-'] + seq![c]);
                } else {
                    assert(out@ =~= prev + Seq::<char>::empty() + seq![c]);
                }
                assert(prev + norm_state(s@.skip(i as int), started, pending) =~= out@
                    + norm_state(s@.skip(i + 1), true, false));
            }
            started = true;
            pending = false;
        } else {
            proof {
                assert(norm_state(s@.skip(i as int), started, pending) == norm_state(
                    s@.skip(i + 1),
                    started,
                    started,
                ));
            }
            pending = started;
        }
        i = i + 1;
    }
    proof {
        assert(s@.skip(s@.len() as int) =~= Seq::<char>::empty());
        assert(out@ + Seq::<char>::empty() =~= out@);
    }
    out
}

/// Turns a free-text issue title into a branch-safe token: every maximal run
/// of characters outside `[A-Za-z0-9_]` becomes a single `'-'`, and no
/// separator is left at either end.
pub fn normalize_title(title: &String) -> (r: String)
    ensures
        r@ == normalized_title(title@),
{
    let chars = str_chars(title.as_str());
    let out = normalize_chars(&chars);
    chars_to_string(&out)
}

/// The segments of a name split on `'.'`, keeping empty segments.
pub open spec fn split_dots(s: Seq<char>) -> Seq<Seq<char>>
    decreases s.len(),
{
    if s.len() == 0 {
        seq![Seq::<char>::empty()]
    } else if s.last() == '.' {
        split_dots(s.drop_last()).push(Seq::empty())
    } else {
        let parts = split_dots(s.drop_last());
        parts.update(parts.len() - 1, parts.last().push(s.last()))
    }
}

proof fn lemma_split_dots_len(s: Seq<char>)
    ensures
        split_dots(s).len() >= 1,
    decreases s.len(),
{
    if s.len() > 0 {
        lemma_split_dots_len(s.drop_last());
    }
}

/// How many decimal digits end the segment.
pub open spec fn trailing_digits(s: Seq<char>) -> nat
    decreases s.len(),
{
    if s.len() > 0 && is_digit_char(s.last()) {
        trailing_digits(s.drop_last()) + 1
    } else {
        0
    }
}

proof fn lemma_trailing_digits_count(s: Seq<char>, k: nat)
    requires
        k <= s.len(),
        forall|j: int| s.len() - k <= j < s.len() ==> is_digit_char(#[trigger] s[j]),
        k < s.len() ==> !is_digit_char(s[s.len() - 1 - k]),
    ensures
        trailing_digits(s) == k,
    decreases k,
{
    if k == 0 {
    } else {
        assert(is_digit_char(s.last()));
        assert forall|j: int|
            s.drop_last().len() - (k - 1) <= j < s.drop_last().len() implies is_digit_char(
            #[trigger] s.drop_last()[j],
        ) by {
            assert(s.drop_last()[j] == s[j]);
        }
        if k - 1 < s.drop_last().len() {
            assert(s.drop_last()[s.drop_last().len() - 1 - (k - 1)] == s[s.len() - 1 - k]);
        }
        lemma_trailing_digits_count(s.drop_last(), (k - 1) as nat);
    }
}

/// Whether a segment ends in `v` followed by one or more digits, with the
/// `v` not the whole segment's first run of digits.
pub open spec fn is_version_segment(s: Seq<char>) -> bool {
    trailing_digits(s) > 0 && trailing_digits(s) < s.len() && s[s.len() - 1 - trailing_digits(s)]
        == 'v'
}

/// The numeric value of the trailing digit run of a version segment.
pub open spec fn version_value(s: Seq<char>) -> nat {
    digits_value(s.skip(s.len() - trailing_digits(s)))
}

/// Each segment normalized on its own, rejoined with `'.'`.
pub open spec fn join_norm_dots(parts: Seq<Seq<char>>) -> Seq<char>
    decreases parts.len(),
{
    if parts.len() == 0 {
        Seq::empty()
    } else if parts.len() == 1 {
        normalized_title(parts[0])
    } else {
        join_norm_dots(parts.drop_last()) + seq!['.'] + normalized_title(parts.last())
    }
}

/// The bumped form of a branch name: if the last dot-separated segment ends
/// in `v` and digits, the digits are incremented and every preceding segment
/// is normalized; otherwise the whole name is normalized and `.v1` appended.
pub open spec fn bumped_name(s: Seq<char>) -> Seq<char> {
    let parts = split_dots(s);
    if parts.len() >= 2 && is_version_segment(parts.last()) {
        join_norm_dots(parts.drop_last()) + seq!['.', 'v'] + dec_rep(
            version_value(parts.last()) + 1,
        )
    } else {
        normalized_title(s) + seq!['.', 'v', '1']
    }
}

/// Whether bumping the name would need a version number beyond `u64`.
pub open spec fn version_overflows(s: Seq<char>) -> bool {
    let parts = split_dots(s);
    parts.len() >= 2 && is_version_segment(parts.last()) && version_value(parts.last()) + 1
        > u64::MAX
}

fn split_dots_chars(s: &Vec<char>) -> (r: Vec<Vec<char>>)
    ensures
        r@.len() == split_dots(s@).len(),
        forall|j: int| 0 <= j < r@.len() ==> (#[trigger] r@[j])@ == split_dots(s@)[j],
{
    let mut done: Vec<Vec<char>> = Vec::new();
    let mut cur: Vec<char> = Vec::new();
    let mut i: usize = 0;
    proof {
        assert(s@.take(0) =~= Seq::<char>::empty());
    }
    while i < s.len()
        invariant
            i <= s@.len(),
            split_dots(s@.take(i as int)).len() == done@.len() + 1,
            forall|j: int|
                0 <= j < done@.len() ==> (#[trigger] done@[j])@ == split_dots(s@.take(i as int))[j],
            cur@ == split_dots(s@.take(i as int)).last(),
        decreases s@.len() - i,
    {
        proof {
            assert(s@.take(i + 1).drop_last() =~= s@.take(i as int));
            assert(s@.take(i + 1).last() == s@[i as int]);
        }
        let c = s[i];
        if c == '.' {
            done.push(cur);
            cur = Vec::new();
        } else {
            cur.push(c);
        }
        i = i + 1;
    }
    proof {
        assert(s@.take(s@.len() as int) =~= s@);
    }
    done.push(cur);
    done
}

/// Appends `.v1` to the normalized whole name.
fn plain_bump(chars: &Vec<char>) -> (r: Vec<char>)
    ensures
        r@ == normalized_title(chars@) + seq!['.', 'v', '1'],
{
    let mut out = normalize_chars(chars);
    out.push('.');
    out.push('v');
    out.push('1');
    proof {
        assert(out@ =~= normalized_title(chars@) + seq!['.', 'v', '1']);
    }
    out
}

/// Derives the next version of a branch name, reporting a failure instead
/// of wrapping when the incremented version number would not fit in `u64`.
pub fn bump_branch_checked(name: &str) -> (r: Result<String, String>)
    ensures
        match r {
            Ok(out) => !version_overflows(name@) && out@ == bumped_name(name@),
            Err(m) => version_overflows(name@) && m@ == "version number does not fit in 64 bits"@,
        },
{
    let chars = str_chars(name);
    let segs = split_dots_chars(&chars);
    let m = segs.len();
    proof {
        lemma_split_dots_len(name@);
    }
    let ghost parts = split_dots(name@);
    if m >= 2 {
        let lastseg = &segs[m - 1];
        proof {
            assert(lastseg@ == parts.last());
        }
        let n = lastseg.len();
        let mut k: usize = 0;
        while k < n && digit_char(lastseg[n - 1 - k])
            invariant
                k <= n,
                n == lastseg@.len(),
                forall|j: int| n - k <= j < n ==> is_digit_char(#[trigger] lastseg@[j]),
            decreases n - k,
        {
            k = k + 1;
        }
        proof {
            lemma_trailing_digits_count(lastseg@, k as nat);
        }
        if k > 0 && k < n && lastseg[n - 1 - k] == 'v' {
            assert(is_version_segment(parts.last()));
            let start = n - k;
            let ghost digits = lastseg@.skip(start as int);
            let mut val: u64 = 0;
            let mut j = start;
            proof {
                assert(lastseg@.subrange(start as int, start as int) =~= digits.take(0));
            }
            while j < n
                invariant
                    start <= j <= n,
                    n == lastseg@.len(),
                    start == n - k,
                    k == trailing_digits(lastseg@),
                    digits == lastseg@.skip(start as int),
                    forall|j2: int| n - k <= j2 < n ==> is_digit_char(#[trigger] lastseg@[j2]),
                    val == digits_value(lastseg@.subrange(start as int, j as int)),
                    version_overflows(name@) == (version_value(parts.last()) + 1 > u64::MAX),
                    parts == split_dots(name@),
                    m >= 2,
                    m == parts.len(),
                    lastseg@ == parts.last(),
                    is_version_segment(parts.last()),
                decreases n - j,
            {
                let u = lastseg[j] as u32;
                proof {
                    assert(is_digit_char(lastseg@[j as int]));
                }
                let d = (u - 48) as u64;
                proof {
                    assert(d as nat == digit_val(lastseg@[j as int]));
                    assert(lastseg@.subrange(start as int, j + 1).drop_last() =~= lastseg@.subrange(
                        start as int,
                        j as int,
                    ));
                    assert(lastseg@.subrange(start as int, j + 1).last() == lastseg@[j as int]);
                    assert(digits_value(lastseg@.subrange(start as int, j + 1)) == val as nat * 10
                        + d as nat);
                    assert(lastseg@.subrange(start as int, j + 1) =~= digits.take(j + 1 - start));
                    lemma_digits_value_take(digits, j + 1 - start);
                }
                if val > (u64::MAX - d) / 10 {
                    proof {
                        assert(val as int * 10 + d as int > u64::MAX as int);
                        assert(version_value(parts.last()) + 1 > u64::MAX);
                    }
                    return Err("version number does not fit in 64 bits".to_owned());
                }
                proof {
                    assert(val as int * 10 + d as int <= u64::MAX as int);
                }
                val = val * 10 + d;
                j = j + 1;
            }
            proof {
                assert(lastseg@.subrange(start as int, n as int) =~= digits);
                assert(val as nat == version_value(parts.last()));
            }
            if val == u64::MAX {
                return Err("version number does not fit in 64 bits".to_owned());
            }
            let mut out: Vec<char> = Vec::new();
            let mut t: usize = 0;
            proof {
                assert(parts.take(0) =~= Seq::<Seq<char>>::empty());
            }
            while t < m - 1
                invariant
                    t <= m - 1,
                    2 <= m == parts.len(),
                    segs@.len() == m,
                    forall|j2: int|
                        0 <= j2 < segs@.len() ==> (#[trigger] segs@[j2])@ == parts[j2],
                    out@ == join_norm_dots(parts.take(t as int)),
                decreases m - 1 - t,
            {
                proof {
                    assert(parts.take(t + 1).drop_last() =~= parts.take(t as int));
                    assert(parts.take(t + 1).last() == parts[t as int]);
                }
                if t > 0 {
                    out.push('.');
                }
                let mut piece = normalize_chars(&segs[t]);
                let ghost before = out@;
                out.append(&mut piece);
                proof {
                    if t == 0 {
                        assert(out@ =~= join_norm_dots(parts.take(t + 1)));
                    } else {
                        assert(before =~= join_norm_dots(parts.take(t as int)) + seq!['.']);
                        assert(out@ =~= join_norm_dots(parts.take(t + 1)));
                    }
                }
                t = t + 1;
            }
            proof {
                assert(parts.take(m - 1) =~= parts.drop_last());
            }
            out.push('.');
            out.push('v');
            let ghost prefix = out@;
            proof {
                assert(prefix =~= join_norm_dots(parts.drop_last()) + seq!['.', 'v']);
            }
            push_decimal(val + 1, &mut out);
            proof {
                assert(out@ =~= join_norm_dots(parts.drop_last()) + seq!['.', 'v'] + dec_rep(
                    (val + 1) as nat,
                ));
                assert((val + 1) as nat == version_value(parts.last()) + 1);
                assert(out@ == bumped_name(name@));
            }
            return Ok(chars_to_string(&out));
        }
        proof {
            assert(!is_version_segment(parts.last()));
        }
    }
    let out = plain_bump(&chars);
    Ok(chars_to_string(&out))
}

/// Derives the next version of a branch name: `name.v<n>` becomes
/// `name.v<n+1>` with every other segment normalized, and any other name
/// becomes `normalize(name).v1`.
pub fn bump_branch(name: String) -> (r: String)
    requires
        !version_overflows(name@),
    ensures
        r@ == bumped_name(name@),
{
    match bump_branch_checked(name.as_str()) {
        Ok(out) => out,
        Err(_) => unreached(),
    }
}

} // verus!
