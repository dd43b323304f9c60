use vstd::prelude::*;

verus! {

/// Unicode `White_Space` code points, the set that `str::trim` strips.
pub open spec fn is_ws(c: char) -> bool {
    let u = c as u32;
    (0x09 <= u && u <= 0x0D) || u == 0x20 || u == 0x85 || u == 0xA0 || u == 0x1680 || (0x2000
        <= u && u <= 0x200A) || u == 0x2028 || u == 0x2029 || u == 0x202F || u == 0x205F || u
        == 0x3000
}

pub open spec fn trim_start_spec(s: Seq<char>) -> Seq<char>
    decreases s.len(),
{
    if s.len() > 0 && is_ws(s[0]) {
        trim_start_spec(s.drop_first())
    } else {
        s
    }
}

pub open spec fn trim_end_spec(s: Seq<char>) -> Seq<char>
    decreases s.len(),
{
    if s.len() > 0 && is_ws(s.last()) {
        trim_end_spec(s.drop_last())
    } else {
        s
    }
}

/// The text with leading and trailing whitespace removed.
pub open spec fn trim_spec(s: Seq<char>) -> Seq<char> {
    trim_end_spec(trim_start_spec(s))
}

/// A text is trimmed when it neither starts nor ends with whitespace.
pub open spec fn is_trimmed(s: Seq<char>) -> bool {
    s.len() == 0 || (!is_ws(s[0]) && !is_ws(s.last()))
}

/// The trimmed text, or `fallback` when nothing but whitespace is left.
pub open spec fn name_or(value: Seq<char>, fallback: Seq<char>) -> Seq<char> {
    if trim_spec(value).len() == 0 {
        fallback
    } else {
        trim_spec(value)
    }
}

/// The trimmed text, or nothing when it is blank.
pub open spec fn opt_text_spec(value: Option<Seq<char>>) -> Option<Seq<char>> {
    match value {
        Some(v) => if trim_spec(v).len() == 0 {
            None
        } else {
            Some(trim_spec(v))
        },
        None => None,
    }
}

pub open spec fn lower_char(c: char) -> char {
    if 'A' <= c && c <= 'Z' {
        ((c as u32) + 32) as char
    } else {
        c
    }
}

/// ASCII upper-case letters mapped to lower case, every other character kept.
pub open spec fn ascii_lower_spec(s: Seq<char>) -> Seq<char> {
    s.map_values(|c: char| lower_char(c))
}

pub open spec fn digit_char(d: nat) -> char {
    seq!['0', '1', '2', '3', '4', '5', '6', '7', '8', '9'][d as int]
}

pub open spec fn digits_spec(n: nat) -> Seq<char>
    decreases n,
{
    if n < 10 {
        seq![digit_char(n)]
    } else {
        digits_spec(n / 10).push(digit_char(n % 10))
    }
}

/// Decimal notation of an integer, with a leading `-` when it is negative.
pub open spec fn int_text_spec(n: int) -> Seq<char> {
    if n < 0 {
        seq!['-'] + digits_spec((-n) as nat)
    } else {
        digits_spec(n as nat)
    }
}

/// Relies on `str::trim`: strips leading and trailing Unicode whitespace.
#[verifier::external_body]
pub(crate) fn trim_str(s: &str) -> (r: &str)
    ensures
        r@ == trim_spec(s@),
{
    s.trim()
}

/// Relies on `str::to_ascii_lowercase`: maps `A`..`Z` to `a`..`z`, nothing else.
#[verifier::external_body]
pub(crate) fn ascii_lower(s: &str) -> (r: String)
    ensures
        r@ == ascii_lower_spec(s@),
{
    s.to_ascii_lowercase()
}

/// Relies on `i64`'s `to_string`: decimal notation.
#[verifier::external_body]
pub(crate) fn int_text(n: i64) -> (r: String)
    ensures
        r@ == int_text_spec(n as int),
{
    n.to_string()
}

/// Relies on `u64`'s `to_string`: decimal notation.
#[verifier::external_body]
pub(crate) fn nat_text(n: u64) -> (r: String)
    ensures
        r@ == digits_spec(n as nat),
{
    n.to_string()
}

/// The views of a sequence of strings.
pub open spec fn strs_view(v: Seq<String>) -> Seq<Seq<char>> {
    v.map_values(|s: String| s@)
}

/// Whether `v` holds a string equal to `s`.
pub fn contains_str(v: &Vec<String>, s: &String) -> (r: bool)
    ensures
        r == strs_view(v@).contains(s@),
{
    let mut i: usize = 0;
    while i < v.len()
        invariant
            0 <= i <= v@.len(),
            forall|k: int| 0 <= k < i ==> v@[k]@ != s@,
        decreases v@.len() - i,
    {
        if v[i] == *s {
            assert(strs_view(v@)[i as int] == s@);
            return true;
        }
        i += 1;
    }
    assert forall|k: int| 0 <= k < strs_view(v@).len() implies strs_view(v@)[k] != s@ by {
        assert(v@[k]@ != s@);
    }
    false
}

/// Copies a string slice into a new `String`.
pub fn owned(s: &str) -> (r: String)
    ensures
        r@ == s@,
{
    s.to_string()
}

pub fn concat(a: &str, b: &str) -> (r: String)
    ensures
        r@ == a@ + b@,
{
    let mut r = owned(a);
    r.append(b);
    r
}

proof fn lemma_trim_start(s: Seq<char>)
    ensures
        trim_start_spec(s).len() == 0 || !is_ws(trim_start_spec(s)[0]),
        trim_start_spec(s).len() <= s.len(),
        trim_start_spec(s) == s.subrange(s.len() - trim_start_spec(s).len(), s.len() as int),
    decreases s.len(),
{
    if s.len() > 0 && is_ws(s[0]) {
        lemma_trim_start(s.drop_first());
        assert(s.drop_first() == s.subrange(1, s.len() as int));
        let t = trim_start_spec(s.drop_first());
        assert(t == s.subrange(s.len() - t.len(), s.len() as int));
    } else {
        assert(s == s.subrange(0, s.len() as int));
    }
}

proof fn lemma_trim_end(s: Seq<char>)
    ensures
        trim_end_spec(s).len() == 0 || !is_ws(trim_end_spec(s).last()),
        trim_end_spec(s).len() <= s.len(),
        trim_end_spec(s) == s.subrange(0, trim_end_spec(s).len() as int),
        s.len() > 0 && !is_ws(s[0]) ==> trim_end_spec(s).len() > 0,
    decreases s.len(),
{
    if s.len() > 0 && is_ws(s.last()) {
        lemma_trim_end(s.drop_last());
        let t = trim_end_spec(s.drop_last());
        assert(t == s.subrange(0, t.len() as int));
        if s.len() > 0 && !is_ws(s[0]) {
            assert(s.len() > 1);
            assert(s.drop_last()[0] == s[0]);
        }
    } else {
        assert(s == s.subrange(0, s.len() as int));
    }
}

/// Trimming yields a trimmed text.
pub proof fn lemma_trim_is_trimmed(s: Seq<char>)
    ensures
        is_trimmed(trim_spec(s)),
{
    let a = trim_start_spec(s);
    lemma_trim_start(s);
    lemma_trim_end(a);
    let b = trim_end_spec(a);
    if b.len() > 0 {
        assert(b[0] == a[0]);
    }
}

/// A trimmed text is left as it is by trimming.
pub proof fn lemma_trimmed_fixed(s: Seq<char>)
    requires
        is_trimmed(s),
    ensures
        trim_spec(s) == s,
{
    assert(trim_start_spec(s) == s);
    assert(trim_end_spec(s) == s);
}

/// Trims `value`, falling back to `fallback` when nothing is left.
pub fn normalize_name(value: &str, fallback: &str) -> (r: String)
    ensures
        r@ == name_or(value@, fallback@),
{
    let trimmed = trim_str(value);
    if trimmed.unicode_len() == 0 {
        owned(fallback)
    } else {
        owned(trimmed)
    }
}

/// Trims an optional text; a blank one becomes `None`.
pub fn normalize_optional_text(value: Option<String>) -> (r: Option<String>)
    ensures
        opt_view(&r) == opt_text_spec(opt_view(&value)),
{
    match value {
        Some(raw) => {
            let trimmed = trim_str(raw.as_str());
            if trimmed.unicode_len() == 0 {
                None
            } else {
                Some(owned(trimmed))
            }
        },
        None => None,
    }
}

/// Trims an optional identifier; a blank one becomes `None`.
pub fn normalize_optional_id(value: Option<String>) -> (r: Option<String>)
    ensures
        opt_view(&r) == opt_text_spec(opt_view(&value)),
{
    normalize_optional_text(value)
}

/// The view of an optional string.
pub open spec fn opt_view(o: &Option<String>) -> Option<Seq<char>> {
    match o {
        Some(s) => Some(s@),
        None => None,
    }
}


/// The length of the longest of `ids`.
pub open spec fn max_len(ids: Seq<Seq<char>>) -> nat
    decreases ids.len(),
{
    if ids.len() == 0 {
        0
    } else {
        let m = max_len(ids.drop_last());
        if ids.last().len() > m {
            ids.last().len()
        } else {
            m
        }
    }
}

pub proof fn lemma_max_len(ids: Seq<Seq<char>>, x: Seq<char>)
    requires
        ids.contains(x),
    ensures
        x.len() <= max_len(ids),
    decreases ids.len(),
{
    let k = choose|k: int| 0 <= k < ids.len() && ids[k] == x;
    if k < ids.len() - 1 {
        assert(ids.drop_last()[k] == x);
        lemma_max_len(ids.drop_last(), x);
    }
}

/// `candidate`, with `suffix` appended as often as needed to make it differ from every id in
/// `taken`.
pub open spec fn unused_id(taken: Seq<Seq<char>>, candidate: Seq<char>, suffix: Seq<char>) -> Seq<
    char,
>
    decreases (if candidate.len() <= max_len(taken) {
        max_len(taken) + 1 - candidate.len()
    } else {
        0
    }),
{
    if taken.contains(candidate) && candidate.len() <= max_len(taken) && suffix.len() > 0 {
        unused_id(taken, candidate + suffix, suffix)
    } else {
        candidate
    }
}

/// An unused id is unused, and keeps the first character of the candidate and ends like it
/// or like the suffix.
pub proof fn lemma_unused_id(taken: Seq<Seq<char>>, candidate: Seq<char>, suffix: Seq<char>)
    requires
        suffix.len() > 0,
    ensures
        !taken.contains(unused_id(taken, candidate, suffix)),
        unused_id(taken, candidate, suffix).len() >= candidate.len(),
        candidate.len() > 0 ==> unused_id(taken, candidate, suffix)[0] == candidate[0],
        unused_id(taken, candidate, suffix).last() == candidate.last() || unused_id(
            taken,
            candidate,
            suffix,
        ).last() == suffix.last(),
    decreases (if candidate.len() <= max_len(taken) {
        max_len(taken) + 1 - candidate.len()
    } else {
        0
    }),
{
    if taken.contains(candidate) && candidate.len() <= max_len(taken) {
        lemma_unused_id(taken, candidate + suffix, suffix);
        let c2 = candidate + suffix;
        assert(c2.last() == suffix.last());
        if candidate.len() > 0 {
            assert(c2[0] == candidate[0]);
        }
    } else if taken.contains(candidate) {
        lemma_max_len(taken, candidate);
    }
}

/// `candidate`, made to differ from every string in `taken` by appending `suffix` as often as
/// needed.
pub fn make_unused(taken: &Vec<String>, candidate: String, suffix: &str) -> (r: String)
    requires
        suffix@.len() > 0,
    ensures
        r@ == unused_id(strs_view(taken@), candidate@, suffix@),
{
    let ghost tv = strs_view(taken@);
    let ghost goal = unused_id(tv, candidate@, suffix@);
    let mut c = candidate;
    while contains_str(taken, &c)
        invariant
            tv == strs_view(taken@),
            suffix@.len() > 0,
            unused_id(tv, c@, suffix@) == goal,
        decreases (if c@.len() <= max_len(tv) {
            max_len(tv) + 1 - c@.len()
        } else {
            0
        }),
    {
        proof {
            lemma_max_len(tv, c@);
        }
        c = concat(c.as_str(), suffix);
    }
    c
}

/// Whether two optional strings are equal.
pub fn opt_str_eq(a: &Option<String>, b: &Option<String>) -> (r: bool)
    ensures
        r == (opt_view(a) == opt_view(b)),
{
    match (a, b) {
        (Some(x), Some(y)) => *x == *y,
        (None, None) => true,
        _ => false,
    }
}

/// Whether an optional string holds `s`.
pub fn opt_is(a: &Option<String>, s: &String) -> (r: bool)
    ensures
        r == (opt_view(a) == Some(s@)),
{
    match a {
        Some(x) => *x == *s,
        None => false,
    }
}

} // verus!
