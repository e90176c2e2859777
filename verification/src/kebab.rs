//! Key normalization: converts an arbitrary key string (snake_case,
//! camelCase, spaced, or mixed) into a canonical lowercase,
//! hyphen-separated tag name.

use vstd::prelude::*;

verus! {

/// An ASCII lowercase letter.
pub open spec fn is_lower(c: char) -> bool {
    'a' as int <= c as int && c as int <= 'z' as int
}

/// An ASCII uppercase letter.
pub open spec fn is_upper(c: char) -> bool {
    'A' as int <= c as int && c as int <= 'Z' as int
}

/// A character that is mapped to a hyphen: space or underscore.
pub open spec fn is_sep(c: char) -> bool {
    c == ' ' || c == '_'
}

/// ASCII lowercasing: uppercase letters move down by 32, all else unchanged.
pub open spec fn lower_char(c: char) -> char {
    if is_upper(c) {
        (c as int + 32) as char
    } else {
        c
    }
}

/// How a single key character appears in the raw normalized form:
/// separators become hyphens, letters are lowercased.
pub open spec fn map_char(c: char) -> char {
    if is_sep(c) {
        '-'
    } else {
        lower_char(c)
    }
}

/// First pass over the key: lowercase every character, map separators to
/// hyphens, and insert a hyphen before an uppercase letter that immediately
/// follows a lowercase letter (the camelCase boundary).
pub open spec fn expand(s: Seq<char>) -> Seq<char>
    decreases s.len(),
{
    if s.len() == 0 {
        Seq::<char>::empty()
    } else {
        let boundary: Seq<char> = if s.len() >= 2 && is_upper(s.last()) && is_lower(s[s.len() - 2])
        {
            seq!['-']
        } else {
            Seq::<char>::empty()
        };
        expand(s.drop_last()) + boundary + seq![map_char(s.last())]
    }
}

/// Second pass: collapse every run of consecutive hyphens to a single
/// hyphen, keeping the first hyphen of each run.
pub open spec fn collapse(s: Seq<char>) -> Seq<char>
    decreases s.len(),
{
    if s.len() <= 1 {
        s
    } else if s[s.len() - 2] == '-' && s.last() == '-' {
        collapse(s.drop_last())
    } else {
        collapse(s.drop_last()).push(s.last())
    }
}

/// The normalized form of a key: both passes composed.
pub open spec fn kebab_spec(s: Seq<char>) -> Seq<char> {
    collapse(expand(s))
}

/// A sequence that is already in folded form: no uppercase letters and no
/// separator characters are left in it.
pub open spec fn folded(s: Seq<char>) -> bool {
    forall|k: int| 0 <= k < s.len() ==> !is_upper(#[trigger] s[k]) && !is_sep(s[k])
}

/// A sequence with no two consecutive hyphens.
pub open spec fn no_double_hyphen(s: Seq<char>) -> bool {
    forall|k: int| 0 <= k < s.len() - 1 ==> !(#[trigger] s[k] == '-' && s[k + 1] == '-')
}

proof fn lemma_collapse_ends(s: Seq<char>)
    ensures
        s.len() == 0 ==> collapse(s) == s,
        s.len() > 0 ==> collapse(s).len() >= 1,
        s.len() > 0 ==> collapse(s)[0] == s[0],
        s.len() > 0 ==> collapse(s).last() == s.last(),
    decreases s.len(),
{
    if s.len() > 1 {
        lemma_collapse_ends(s.drop_last());
    }
}

proof fn lemma_collapse_no_double(s: Seq<char>)
    ensures
        no_double_hyphen(collapse(s)),
    decreases s.len(),
{
    if s.len() > 1 {
        let t = s.drop_last();
        lemma_collapse_no_double(t);
        lemma_collapse_ends(t);
        if !(s[s.len() - 2] == '-' && s.last() == '-') {
            let c = collapse(t);
            let r = collapse(s);
            assert(r == c.push(s.last()));
            assert forall|k: int| 0 <= k < r.len() - 1 implies !(#[trigger] r[k] == '-' && r[k + 1]
                == '-') by {
                if k < c.len() - 1 {
                    assert(r[k] == c[k] && r[k + 1] == c[k + 1]);
                } else {
                    assert(r[k] == c.last() && r[k + 1] == s.last());
                    assert(c.last() == t.last() == s[s.len() - 2]);
                }
            }
        }
    }
}

proof fn lemma_collapse_id(s: Seq<char>)
    requires
        no_double_hyphen(s),
    ensures
        collapse(s) == s,
    decreases s.len(),
{
    if s.len() > 1 {
        let t = s.drop_last();
        assert(no_double_hyphen(t)) by {
            assert forall|k: int| 0 <= k < t.len() - 1 implies !(#[trigger] t[k] == '-' && t[k + 1]
                == '-') by {
                assert(t[k] == s[k] && t[k + 1] == s[k + 1]);
            }
        }
        lemma_collapse_id(t);
        assert(!(s[s.len() - 2] == '-' && s.last() == '-'));
        assert(collapse(s) == t.push(s.last()));
        assert(t.push(s.last()) =~= s);
    }
}

proof fn lemma_expand_ends(s: Seq<char>)
    ensures
        s.len() == 0 ==> expand(s).len() == 0,
        s.len() > 0 ==> expand(s).len() >= 1,
        s.len() > 0 ==> expand(s)[0] == map_char(s[0]),
        s.len() > 0 ==> expand(s).last() == map_char(s.last()),
    decreases s.len(),
{
    if s.len() > 0 {
        lemma_expand_ends(s.drop_last());
    }
}

proof fn lemma_expand_folded(s: Seq<char>)
    ensures
        folded(expand(s)),
    decreases s.len(),
{
    if s.len() > 0 {
        let t = s.drop_last();
        lemma_expand_folded(t);
        let e = expand(t);
        let r = expand(s);
        assert forall|k: int| 0 <= k < r.len() implies !is_upper(#[trigger] r[k]) && !is_sep(r[k])
            by {
            if k < e.len() {
                assert(r[k] == e[k]);
            } else if k < r.len() - 1 {
                assert(r[k] == '-');
            } else {
                assert(r[k] == map_char(s.last()));
            }
        }
    }
}

proof fn lemma_expand_id(s: Seq<char>)
    requires
        folded(s),
    ensures
        expand(s) == s,
    decreases s.len(),
{
    if s.len() > 0 {
        let t = s.drop_last();
        assert(folded(t)) by {
            assert(forall|k: int| 0 <= k < t.len() ==> t[k] == #[trigger] s[k]);
        }
        lemma_expand_id(t);
        assert(!is_upper(s.last()));
        assert(map_char(s.last()) == s.last());
        assert(expand(s) =~= s);
    }
}

/// Normalization is idempotent: normalizing an already-normalized key
/// yields the same string.
pub proof fn lemma_kebab_idempotent(s: Seq<char>)
    ensures
        kebab_spec(kebab_spec(s)) == kebab_spec(s),
{
    let e = expand(s);
    let t = collapse(e);
    lemma_expand_folded(s);
    assert(folded(t)) by {
        assert forall|k: int| 0 <= k < t.len() implies !is_upper(#[trigger] t[k]) && !is_sep(t[k])
            by {
            lemma_collapse_contains(e, k);
        }
    }
    lemma_expand_id(t);
    lemma_collapse_no_double(e);
    lemma_collapse_id(t);
}

proof fn lemma_collapse_contains(s: Seq<char>, k: int)
    requires
        0 <= k < collapse(s).len(),
    ensures
        exists|j: int| 0 <= j < s.len() && s[j] == collapse(s)[k],
    decreases s.len(),
{
    if s.len() <= 1 {
        assert(s[k] == collapse(s)[k]);
    } else {
        let t = s.drop_last();
        let c = collapse(t);
        if s[s.len() - 2] == '-' && s.last() == '-' {
            lemma_collapse_contains(t, k);
            let j = choose|j: int| 0 <= j < t.len() && t[j] == collapse(t)[k];
            assert(s[j] == collapse(s)[k]);
        } else {
            if k < c.len() {
                lemma_collapse_contains(t, k);
                let j = choose|j: int| 0 <= j < t.len() && t[j] == c[k];
                assert(s[j] == collapse(s)[k]);
            } else {
                assert(collapse(s)[k] == s.last());
                assert(s[s.len() - 1] == collapse(s)[k]);
            }
        }
    }
}

/// The normalized form never holds two consecutive hyphens; it is empty
/// exactly for the empty key; and it begins or ends with a hyphen only
/// where the key itself begins or ends with a hyphen, space or underscore.
pub proof fn lemma_kebab_hyphens(s: Seq<char>)
    ensures
        no_double_hyphen(kebab_spec(s)),
        kebab_spec(s).len() == 0 <==> s.len() == 0,
        s.len() > 0 ==> (kebab_spec(s)[0] == '-' <==> (s[0] == '-' || is_sep(s[0]))),
        s.len() > 0 ==> (kebab_spec(s).last() == '-' <==> (s.last() == '-' || is_sep(s.last()))),
{
    let e = expand(s);
    lemma_collapse_no_double(e);
    lemma_expand_ends(s);
    lemma_collapse_ends(e);
    if s.len() > 0 {
        lemma_map_char_hyphen(s[0]);
        lemma_map_char_hyphen(s.last());
    }
}

proof fn lemma_map_char_hyphen(c: char)
    ensures
        map_char(c) == '-' <==> (c == '-' || is_sep(c)),
{
    if is_upper(c) {
        assert(lower_char(c) as int == c as int + 32);
    }
}

/// Whether `c` is an ASCII lowercase letter.
fn ch_is_lower(c: char) -> (b: bool)
    ensures
        b == is_lower(c),
{
    let u = c as u32;
    97 <= u && u <= 122
}

/// Whether `c` is an ASCII uppercase letter.
fn ch_is_upper(c: char) -> (b: bool)
    ensures
        b == is_upper(c),
{
    let u = c as u32;
    65 <= u && u <= 90
}

/// The character `c` as it appears in the raw normalized form.
fn ch_map(c: char) -> (r: char)
    ensures
        r == map_char(c),
{
    if c == ' ' || c == '_' {
        '-'
    } else if ch_is_upper(c) {
        (((c as u8) + 32) as char)
    } else {
        c
    }
}

/// Converts a key to its canonical lowercase, hyphen-separated tag form:
/// spaces and underscores become hyphens, a hyphen is inserted at every
/// lowercase-to-uppercase boundary, every letter is lowercased, and runs of
/// consecutive hyphens are collapsed into one.
pub fn to_kebab_case(text: &str) -> (r: String)
    ensures
        r@ == kebab_spec(text@),
{
    let chars = crate::chars::str_to_chars(text);
    let n = chars.len();

    let mut raw: Vec<char> = Vec::new();
    let mut i: usize = 0;
    while i < n
        invariant
            n == chars@.len(),
            chars@ == text@,
            i <= n,
            raw@ == expand(text@.take(i as int)),
        decreases n - i,
    {
        if i > 0 && ch_is_upper(chars[i]) && ch_is_lower(chars[i - 1]) {
            raw.push('-');
        }
        raw.push(ch_map(chars[i]));
        i = i + 1;
        proof {
            assert(text@.take(i as int).drop_last() =~= text@.take(i - 1));
        }
    }
    proof {
        assert(text@.take(n as int) =~= text@);
    }

    let m = raw.len();
    let mut out = String::new();
    let mut j: usize = 0;
    while j < m
        invariant
            m == raw@.len(),
            raw@ == expand(text@),
            j <= m,
            out@ == collapse(raw@.take(j as int)),
        decreases m - j,
    {
        if !(j > 0 && raw[j - 1] == '-' && raw[j] == '-') {
            crate::chars::push_char(&mut out, raw[j]);
        }
        j = j + 1;
        proof {
            assert(raw@.take(j as int).drop_last() =~= raw@.take(j - 1));
        }
    }
    proof {
        assert(raw@.take(m as int) =~= raw@);
    }
    out
}

} // verus!
