use vstd::prelude::*;

use crate::text::{concat, owned, strs_view, trim_spec, trim_str};

verus! {

/// The position of the first `\n` in `s`, or its length when there is none.
pub open spec fn first_newline(s: Seq<char>) -> int
    decreases s.len(),
{
    if s.len() == 0 {
        0
    } else if s[0] == '\n' {
        0
    } else {
        1 + first_newline(s.drop_first())
    }
}

/// A line without the `\r` of a `\r\n` ending.
pub open spec fn strip_cr(l: Seq<char>) -> Seq<char> {
    if l.len() > 0 && l.last() == '\r' {
        l.drop_last()
    } else {
        l
    }
}

/// The lines of a text: split at `\n` or `\r\n`; a final line ending adds no empty line.
pub open spec fn lines_spec(s: Seq<char>) -> Seq<Seq<char>>
    decreases s.len(),
{
    if s.len() == 0 {
        Seq::empty()
    } else {
        let e = first_newline(s);
        if 0 <= e < s.len() {
            seq![strip_cr(s.take(e))] + lines_spec(s.skip(e + 1))
        } else {
            seq![s]
        }
    }
}

pub open spec fn starts_with_spec(s: Seq<char>, prefix: Seq<char>) -> bool {
    s.len() >= prefix.len() && s.take(prefix.len() as int) == prefix
}

pub open spec fn contains_spec(s: Seq<char>, needle: Seq<char>) -> bool {
    exists|i: int|
        0 <= i && i + needle.len() <= s.len() && #[trigger] s.subrange(i, i + needle.len()) == needle
}

/// Relies on `str::lines`.
#[verifier::external_body]
fn split_lines(s: &str) -> (r: Vec<String>)
    ensures
        strs_view(r@) == lines_spec(s@),
{
    s.lines().map(|l| l.to_string()).collect()
}

/// Relies on `str::starts_with` with a `&str` pattern.
#[verifier::external_body]
fn starts_with(s: &str, prefix: &str) -> (r: bool)
    ensures
        r == starts_with_spec(s@, prefix@),
{
    s.starts_with(prefix)
}

/// Relies on `str::contains` with a `&str` pattern.
#[verifier::external_body]
fn contains_text(s: &str, needle: &str) -> (r: bool)
    ensures
        r == contains_spec(s@, needle@),
{
    s.contains(needle)
}

/// A version section header line.
pub open spec fn is_header(l: Seq<char>) -> bool {
    starts_with_spec(l, "## ["@)
}

/// The version tag as it stands in a header: `[version]`.
pub open spec fn version_tag(version: Seq<char>) -> Seq<char> {
    "["@ + version + "]"@
}

/// The lines up to the next header.
pub open spec fn body_until_header(lines: Seq<Seq<char>>) -> Seq<Seq<char>>
    decreases lines.len(),
{
    if lines.len() == 0 || is_header(lines[0]) {
        Seq::empty()
    } else {
        seq![lines[0]] + body_until_header(lines.drop_first())
    }
}

/// The body of the first header that names `version`, if there is one.
pub open spec fn section_spec(lines: Seq<Seq<char>>, version: Seq<char>) -> Option<
    Seq<Seq<char>>,
>
    decreases lines.len(),
{
    if lines.len() == 0 {
        None
    } else if is_header(lines[0]) && contains_spec(lines[0], version_tag(version)) {
        Some(body_until_header(lines.drop_first()))
    } else {
        section_spec(lines.drop_first(), version)
    }
}

/// The lines joined with `\n`.
pub open spec fn join_lines(lines: Seq<Seq<char>>) -> Seq<char>
    decreases lines.len(),
{
    if lines.len() == 0 {
        Seq::empty()
    } else if lines.len() == 1 {
        lines[0]
    } else {
        join_lines(lines.drop_last()) + "\n"@ + lines.last()
    }
}

/// What the extraction returns: the section's lines joined and trimmed, or an error when the
/// version has no section or an empty one.
pub open spec fn changelog_spec(content: Seq<char>, version: Seq<char>) -> Result<
    Seq<char>,
    Seq<char>,
> {
    match section_spec(lines_spec(content), version) {
        Some(body) => if body.len() > 0 {
            Ok(trim_spec(join_lines(body)))
        } else {
            Err("No changelog found for version "@ + version)
        },
        None => Err("No changelog found for version "@ + version),
    }
}

fn join_with_newlines(lines: &Vec<String>) -> (r: String)
    ensures
        r@ == join_lines(strs_view(lines@)),
{
    let ghost lv = strs_view(lines@);
    let mut out = String::new();
    let mut i: usize = 0;
    assert(lv.skip(0) =~= lv);
    while i < lines.len()
        invariant
            lv == strs_view(lines@),
            0 <= i <= lv.len(),
            out@ == join_lines(lv.take(i as int)),
        decreases lv.len() - i,
    {
        assert(lv.take(i + 1).drop_last() =~= lv.take(i as int));
        assert(lv.take(i + 1).last() == lines@[i as int]@);
        if i > 0 {
            out.append("\n");
        } else {
            assert(lv.take(0).len() == 0);
        }
        out.append(lines[i].as_str());
        proof {
            reveal_strlit("\n");
            if i == 0 {
                assert(out@ =~= lv.take(1)[0]);
            }
        }
        i += 1;
    }
    assert(lv.take(lv.len() as int) =~= lv);
    out
}

/// The notes of `version` in a changelog whose sections start with `## [version]` lines.
pub fn extract_local_changelog(content: &str, version: &str) -> (r: Result<String, String>)
    ensures
        match r {
            Ok(s) => changelog_spec(content@, version@) == Ok::<Seq<char>, Seq<char>>(s@),
            Err(e) => changelog_spec(content@, version@) == Err::<Seq<char>, Seq<char>>(e@),
        },
{
    let lines = split_lines(content);
    let ghost lv = strs_view(lines@);
    let open_tag = concat("[", version);
    let tag = concat(open_tag.as_str(), "]");
    let mut found = false;
    let mut result: Vec<String> = Vec::new();
    let mut i: usize = 0;
    assert(lv.skip(0) =~= lv);
    while i < lines.len()
        invariant
            lv == strs_view(lines@),
            lv == lines_spec(content@),
            tag@ == version_tag(version@),
            0 <= i <= lv.len(),
            !found ==> result@.len() == 0 && section_spec(lv, version@) == section_spec(
                lv.skip(i as int),
                version@,
            ),
            found ==> section_spec(lv, version@) == Some(
                strs_view(result@) + body_until_header(lv.skip(i as int)),
            ),
        ensures
            !found ==> result@.len() == 0 && section_spec(lv, version@) is None,
            found ==> section_spec(lv, version@) == Some(strs_view(result@)),
        decreases lv.len() - i,
    {
        let line = lines[i].as_str();
        let ghost rest = lv.skip(i as int);
        assert(rest[0] == line@);
        assert(rest.drop_first() =~= lv.skip(i + 1));
        proof {
            reveal_strlit("## [");
        }
        if starts_with(line, "## [") {
            if found {
                assert(body_until_header(rest) =~= Seq::<Seq<char>>::empty());
                assert(strs_view(result@) + body_until_header(rest) =~= strs_view(result@));
                break;
            }
            if contains_text(line, tag.as_str()) {
                found = true;
                i += 1;
                continue;
            }
        }
        if found {
            let ghost before = strs_view(result@);
            result.push(owned(line));
            assert(strs_view(result@) =~= before.push(line@));
            assert(before.push(line@) + body_until_header(lv.skip(i + 1)) =~= before + body_until_header(rest));
        }
        i += 1;
        proof {
            if i == lv.len() {
                assert(lv.skip(i as int).len() == 0);
                assert(strs_view(result@) + body_until_header(lv.skip(i as int)) =~= strs_view(
                    result@,
                ));
            }
        }
    }
    if result.len() == 0 {
        let message = concat("No changelog found for version ", version);
        return Err(message);
    }
    let joined = join_with_newlines(&result);
    Ok(owned(trim_str(joined.as_str())))
}

} // verus!
