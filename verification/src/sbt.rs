//! The version gate and the build-output classification: reading a version
//! token out of the declaration file's text, classifying it against the
//! minimum supported version, and turning the build tool's printed output
//! into a module list.

use vstd::prelude::*;

use crate::model::{ProjectName, ProjectType, SBTExecution, SBTVersion, SupportedSBTVersion};
use crate::text::{
    is_numeral, is_space, is_space_char, matches_at, matches_sub_at, numeral_val,
    parse_numeral_saturating, raw_lines, raw_lines_of, relevant_lines, split_char, split_on_char,
    split_trimmed_nonempty_lines, str_views, trim_seq, trim_str,
};

verus! {

/// A minor/patch pair at or above the minimum supported 1.4.5.
pub open spec fn minor_patch_supported(minor: int, patch: int) -> bool {
    minor > 4 || (minor == 4 && patch >= 5)
}

/// The token names a supported version: exactly three dot-separated parts,
/// major `1`, numeral minor and patch at or above the minimum.
pub open spec fn version_valid(v: Seq<char>) -> bool {
    let ps = split_char(v, '.');
    ps.len() == 3 && ps[0] == seq!['1'] && is_numeral(ps[1]) && is_numeral(ps[2])
        && minor_patch_supported(numeral_val(ps[1]), numeral_val(ps[2]))
}

/// The token names a version this tool refuses: major `0` (whatever follows),
/// or major `1` below the minimum.
pub open spec fn version_unsupported(v: Seq<char>) -> bool {
    let ps = split_char(v, '.');
    ps.len() == 3 && (ps[0] == seq!['0'] || (ps[0] == seq!['1'] && is_numeral(ps[1]) && is_numeral(
        ps[2],
    ) && !minor_patch_supported(numeral_val(ps[1]), numeral_val(ps[2]))))
}

/// The token has no recognised shape at all.
pub open spec fn version_unknown(v: Seq<char>) -> bool {
    !version_valid(v) && !version_unsupported(v)
}

/// What the classifier owes for the token `v`: the matching variant, carrying
/// the token itself and, where relevant, the minimum supported version.
pub open spec fn version_outcome_matches(v: Seq<char>, r: SBTVersion) -> bool {
    &&& (version_valid(v) ==> r == SBTVersion::Valid)
    &&& (version_unsupported(v) ==> (r matches SBTVersion::UnsupportedVersion(a, s) && a@ == v
        && s.0@ == "1.4.5"@))
    &&& (version_unknown(v) ==> (r matches SBTVersion::UnknownVersionString(a) && a@ == v))
}

/// Classifies a version token against the minimum supported version, 1.4.5.
pub fn validate_sbt_version(sbt_version: &str) -> (r: SBTVersion)
    ensures
        version_outcome_matches(sbt_version@, r),
{
    let parts = split_on_char(sbt_version, '.');
    proof {
        assert(str_views(parts@).len() == parts@.len());
    }
    if parts.len() != 3 {
        return SBTVersion::UnknownVersionString(sbt_version.to_owned());
    }
    let first: &String = &parts[0];
    proof {
        assert(str_views(parts@)[0] == first@);
        assert(str_views(parts@)[1] == parts@[1]@);
        assert(str_views(parts@)[2] == parts@[2]@);
    }
    let first_is_zero = first.as_str().unicode_len() == 1 && first.as_str().get_char(0) == '0';
    let first_is_one = first.as_str().unicode_len() == 1 && first.as_str().get_char(0) == '1';
    proof {
        if first_is_zero {
            assert(first@ =~= seq!['0']);
        } else {
            assert(first@ != seq!['0']);
        }
        if first_is_one {
            assert(first@ =~= seq!['1']);
        } else {
            assert(first@ != seq!['1']);
        }
    }
    if first_is_zero {
        return SBTVersion::UnsupportedVersion(
            sbt_version.to_owned(),
            SupportedSBTVersion(String::from_str("1.4.5")),
        );
    }
    if !first_is_one {
        return SBTVersion::UnknownVersionString(sbt_version.to_owned());
    }
    let minor = parse_numeral_saturating(parts[1].as_str());
    let patch = parse_numeral_saturating(parts[2].as_str());
    match (minor, patch) {
        (Some(m), Some(p)) => {
            if m > 4 || (m == 4 && p >= 5) {
                SBTVersion::Valid
            } else {
                SBTVersion::UnsupportedVersion(
                    sbt_version.to_owned(),
                    SupportedSBTVersion(String::from_str("1.4.5")),
                )
            }
        },
        _ => SBTVersion::UnknownVersionString(sbt_version.to_owned()),
    }
}

/// A `1.minor.patch` token whose minor and patch parts are numerals is
/// valid when minor > 4, or minor == 4 and patch >= 5; otherwise it is
/// unsupported, never unrecognised.
pub proof fn lemma_version_one_rule(v: Seq<char>)
    requires
        split_char(v, '.').len() == 3,
        split_char(v, '.')[0] == seq!['1'],
        is_numeral(split_char(v, '.')[1]),
        is_numeral(split_char(v, '.')[2]),
    ensures
        version_valid(v) <==> minor_patch_supported(
            numeral_val(split_char(v, '.')[1]),
            numeral_val(split_char(v, '.')[2]),
        ),
        version_unsupported(v) <==> !minor_patch_supported(
            numeral_val(split_char(v, '.')[1]),
            numeral_val(split_char(v, '.')[2]),
        ),
        !version_unknown(v),
{
    assert(seq!['1'] != seq!['0']) by {
        assert(seq!['1'][0] == '1');
    }
}

/// A token of three dot-separated parts whose first part is `0` is always
/// unsupported, whatever the remaining parts hold.
pub proof fn lemma_version_zero_rule(v: Seq<char>)
    requires
        split_char(v, '.').len() == 3,
        split_char(v, '.')[0] == seq!['0'],
    ensures
        version_unsupported(v),
        !version_valid(v),
        !version_unknown(v),
{
    assert(seq!['1'] != seq!['0']) by {
        assert(seq!['1'][0] == '1');
    }
}

/// A token is unrecognised exactly when it does not split into three parts
/// with first part `0`, or `1` followed by numeral minor and patch parts.
pub proof fn lemma_version_unknown_rule(v: Seq<char>)
    ensures
        version_unknown(v) <==> !({
            let ps = split_char(v, '.');
            ps.len() == 3 && (ps[0] == seq!['0'] || (ps[0] == seq!['1'] && is_numeral(ps[1])
                && is_numeral(ps[2])))
        }),
{
    assert(seq!['1'] != seq!['0']) by {
        assert(seq!['1'][0] == '1');
    }
}

/// The module paths a list of raw output lines yields. One line is a
/// single-module project; an even count is two lines per module, of which the
/// second — the path — is kept, trimmed, in order; any other count has no
/// recognised shape.
pub open spec fn classified_paths(lines: Seq<Seq<char>>) -> Option<Seq<Seq<char>>> {
    if lines.len() == 1 {
        Some(seq![trim_seq(lines[0])])
    } else if lines.len() > 0 && lines.len() % 2 == 0 {
        Some(Seq::new((lines.len() / 2) as nat, |i: int| trim_seq(lines[2 * i + 1])))
    } else {
        None
    }
}

/// Classifies raw output lines by their count, as [`classified_paths`] says:
/// the module list on a recognised shape, the lines themselves otherwise.
pub fn classify_lines(lines: Vec<String>) -> (r: SBTExecution)
    ensures
        (classified_paths(str_views(lines@)) matches Some(ps) ==> (
        r matches SBTExecution::SuccessfulExecution(pt) && str_views(pt.0@) == ps)),
        (classified_paths(str_views(lines@)) is None ==> (
        r matches SBTExecution::UnrecognisedOutputStructure(raw) && raw@ == lines@)),
{
    let n = lines.len();
    if n == 1 {
        let first: &String = &lines[0];
        proof {
            assert(str_views(lines@)[0] == first@);
        }
        let path = trim_str(first.as_str()).to_owned();
        let paths = vec![path];
        proof {
            assert(str_views(paths@) =~~= seq![trim_seq(first@)]);
        }
        SBTExecution::SuccessfulExecution(ProjectType(paths))
    } else if n > 0 && n % 2 == 0 {
        let mut paths: Vec<String> = Vec::new();
        let mut i: usize = 1;
        while i < n
            invariant
                n == lines@.len(),
                n % 2 == 0,
                i % 2 == 1,
                1 <= i <= n + 1,
                paths@.len() == (i - 1) / 2,
                forall|k: int|
                    0 <= k < paths@.len() ==> (#[trigger] paths@[k])@ == trim_seq(lines@[2 * k + 1]@),
            decreases n + 1 - i,
        {
            let line: &String = &lines[i];
            let t = trim_str(line.as_str()).to_owned();
            paths.push(t);
            i = i + 2;
        }
        proof {
            assert(paths@.len() == n / 2);
            assert(str_views(paths@) =~~= Seq::new((n / 2) as nat, |k: int| trim_seq(
                str_views(lines@)[2 * k + 1],
            )));
        }
        SBTExecution::SuccessfulExecution(ProjectType(paths))
    } else {
        SBTExecution::UnrecognisedOutputStructure(lines)
    }
}

/// The module paths the build tool's whole output yields, once split into
/// trimmed non-empty lines.
pub open spec fn output_module_paths(out: Seq<char>) -> Option<Seq<Seq<char>>> {
    let ls = relevant_lines(out);
    if ls.len() == 1 {
        Some(seq![ls[0]])
    } else if ls.len() > 0 && ls.len() % 2 == 0 {
        Some(Seq::new((ls.len() / 2) as nat, |i: int| ls[2 * i + 1]))
    } else {
        None
    }
}

/// Splits the build tool's output into trimmed non-empty lines and classifies
/// their shape, as [`output_module_paths`] says. When the shape is not
/// recognised, the outcome carries the output's raw lines — untrimmed, empty
/// interior lines included — as the diagnostic.
pub fn get_base_directories(output_str: &str) -> (r: SBTExecution)
    ensures
        (output_module_paths(output_str@) matches Some(ps) ==> (
        r matches SBTExecution::SuccessfulExecution(pt) && str_views(pt.0@) == ps)),
        (output_module_paths(output_str@) is None ==> (
        r matches SBTExecution::UnrecognisedOutputStructure(raw) && str_views(raw@) == raw_lines(
            output_str@,
        ))),
{
    let lines = split_trimmed_nonempty_lines(output_str);
    let n = lines.len();
    if n == 1 || (n > 0 && n % 2 == 0) {
        proof {
            crate::text::lemma_relevant_lines_trimmed(output_str@);
            let ls = relevant_lines(output_str@);
            if ls.len() == 1 {
                assert(classified_paths(ls) matches Some(ps) && ps =~~= seq![ls[0]]);
            } else {
                assert(classified_paths(ls) matches Some(ps) && ps =~~= Seq::new(
                    (ls.len() / 2) as nat,
                    |i: int| ls[2 * i + 1],
                ));
            }
        }
        classify_lines(lines)
    } else {
        SBTExecution::UnrecognisedOutputStructure(raw_lines_of(output_str))
    }
}

/// The key that a version declaration line carries.
pub open spec fn version_key() -> Seq<char> {
    seq!['s', 'b', 't', '.', 'v', 'e', 'r', 's', 'i', 'o', 'n']
}

/// The end of the run of whitespace that starts at `k`. The declaration
/// pattern allows any Unicode whitespace around its `=`.
pub open spec fn ws_end(l: Seq<char>, k: int) -> int
    decreases l.len() - k when 0 <= k <= l.len()
{
    if k < l.len() && is_space(l[k]) {
        ws_end(l, k + 1)
    } else {
        k
    }
}

/// The declaration pattern matches within the line `l` at position `i`: the
/// key, optional whitespace, `=`, and at least one further character.
pub open spec fn ver_match_at(l: Seq<char>, i: int) -> bool {
    &&& matches_at(l, version_key(), i)
    &&& ws_end(l, i + 11) < l.len()
    &&& l[ws_end(l, i + 11)] == '='
    &&& ws_end(l, i + 11) + 1 < l.len()
}

/// The group the pattern captures when it matches at `i`: everything from the
/// first character that a greedy `\s*` after the `=` leaves, to the line's end.
pub open spec fn ver_capture_at(l: Seq<char>, i: int) -> Seq<char> {
    let eq = ws_end(l, i + 11);
    let c0 = ws_end(l, eq + 1);
    let c = if c0 < l.len() {
        c0
    } else {
        l.len() - 1
    };
    l.subrange(c, l.len() as int)
}

/// The first position at or after `i` where the pattern matches.
pub open spec fn first_ver_match_from(l: Seq<char>, i: int) -> Option<int>
    decreases l.len() - i when 0 <= i <= l.len()
{
    if i >= l.len() {
        None
    } else if ver_match_at(l, i) {
        Some(i)
    } else {
        first_ver_match_from(l, i + 1)
    }
}

/// What one line yields: the captured group of the pattern's leftmost match.
pub open spec fn line_capture(l: Seq<char>) -> Option<Seq<char>> {
    match first_ver_match_from(l, 0) {
        Some(i) => Some(ver_capture_at(l, i)),
        None => None,
    }
}

/// The first line's capture, in line order.
pub open spec fn first_capture(lines: Seq<Seq<char>>) -> Option<Seq<char>>
    decreases lines.len(),
{
    if lines.len() == 0 {
        None
    } else if line_capture(lines[0]) is Some {
        line_capture(lines[0])
    } else {
        first_capture(lines.subrange(1, lines.len() as int))
    }
}

/// The version token the declaration text yields: the captured group of the
/// first line that matches `sbt.version`, optional whitespace, `=`, a value.
pub open spec fn extract_version_token(content: Seq<char>) -> Option<Seq<char>> {
    first_capture(split_char(content, '\n'))
}

proof fn lemma_first_ver_match_found(l: Seq<char>, i: int, j: int)
    requires
        0 <= i <= j < l.len(),
        ver_match_at(l, j),
        forall|k: int| i <= k < j ==> !ver_match_at(l, k),
    ensures
        first_ver_match_from(l, i) == Some(j),
    decreases j - i,
{
    if i < j {
        lemma_first_ver_match_found(l, i + 1, j);
    }
}

proof fn lemma_first_ver_match_none(l: Seq<char>, i: int)
    requires
        0 <= i <= l.len(),
        forall|k: int| i <= k < l.len() ==> !ver_match_at(l, k),
    ensures
        first_ver_match_from(l, i) is None,
    decreases l.len() - i,
{
    if i < l.len() {
        lemma_first_ver_match_none(l, i + 1);
    }
}

/// The end of the whitespace run that starts at `k`, by character scan.
fn scan_pattern_ws(l: &str, k: usize) -> (w: usize)
    requires
        k <= l@.len(),
        l@.len() <= usize::MAX,
    ensures
        w == ws_end(l@, k as int),
        k <= w <= l@.len(),
{
    let n = l.unicode_len();
    let mut w = k;
    while w < n && is_space_char(l.get_char(w))
        invariant
            k <= w <= n,
            n == l@.len(),
            ws_end(l@, k as int) == ws_end(l@, w as int),
        decreases n - w,
    {
        w = w + 1;
    }
    w
}

/// The captured group of the pattern's leftmost match within one line, or
/// nothing when no position of the line matches.
fn capture_in_line(l: &str) -> (r: Option<String>)
    ensures
        (line_capture(l@) matches Some(tok) ==> (r matches Some(t) && t@ == tok)),
        line_capture(l@) is None ==> r is None,
{
    let n = l.unicode_len();
    proof {
        reveal_strlit("sbt.version");
        assert("sbt.version"@ =~= version_key());
    }
    if n < 11 {
        proof {
            assert(forall|k: int| 0 <= k < n ==> !ver_match_at(l@, k));
            lemma_first_ver_match_none(l@, 0);
        }
        return None;
    }
    let mut i: usize = 0;
    while i <= n - 11
        invariant
            0 <= i <= n,
            n == l@.len(),
            n >= 11,
            n <= usize::MAX,
            "sbt.version"@ == version_key(),
            forall|k: int| 0 <= k < i ==> !ver_match_at(l@, k),
        decreases n - i,
    {
        if matches_sub_at(l, "sbt.version", i) {
            let w = scan_pattern_ws(l, i + 11);
            if w < n && l.get_char(w) == '=' && w + 1 < n {
                proof {
                    assert(ver_match_at(l@, i as int));
                    lemma_first_ver_match_found(l@, 0, i as int);
                }
                let c0 = scan_pattern_ws(l, w + 1);
                let c = if c0 < n {
                    c0
                } else {
                    n - 1
                };
                let captured = l.substring_char(c, n).to_owned();
                return Some(captured);
            } else {
                proof {
                    assert(!ver_match_at(l@, i as int));
                }
            }
        }
        i = i + 1;
    }
    proof {
        assert(forall|k: int| 0 <= k < n ==> !ver_match_at(l@, k));
        lemma_first_ver_match_none(l@, 0);
    }
    None
}

/// The version gate. The manifest file must be present, the declaration file
/// must be present and must carry a version declaration line, and the token
/// it declares — trimmed — must name a supported version.
pub fn verify_sbt_version(manifest_exists: bool, declaration: &Option<String>) -> (r: SBTVersion)
    ensures
        !manifest_exists ==> r == SBTVersion::BuildSBTNotFound,
        manifest_exists ==> match declaration {
            None => r == SBTVersion::BuildPropertiesNotFound,
            Some(content) => match extract_version_token(content@) {
                None => (r matches SBTVersion::UnknownVersionString(a) && a@ == content@),
                Some(tok) => version_outcome_matches(trim_seq(tok), r),
            },
        },
{
    if !manifest_exists {
        return SBTVersion::BuildSBTNotFound;
    }
    match declaration {
        None => SBTVersion::BuildPropertiesNotFound,
        Some(content) => {
            let lines = split_on_char(content.as_str(), '\n');
            let n = lines.len();
            let mut i: usize = 0;
            proof {
                assert(str_views(lines@).subrange(0, str_views(lines@).len() as int) =~= str_views(
                    lines@,
                ));
            }
            while i < n
                invariant
                    0 <= i <= n,
                    n == lines@.len(),
                    manifest_exists,
                    *declaration == Some(*content),
                    str_views(lines@) == split_char(content@, '\n'),
                    first_capture(str_views(lines@)) == first_capture(
                        str_views(lines@).subrange(i as int, n as int),
                    ),
                decreases n - i,
            {
                let line: &String = &lines[i];
                proof {
                    assert(str_views(lines@)[i as int] == line@);
                    assert(str_views(lines@).subrange(i as int, n as int)[0] == line@);
                    assert(str_views(lines@).subrange(i as int, n as int).subrange(
                        1,
                        n - i,
                    ) =~= str_views(lines@).subrange(i + 1, n as int));
                }
                match capture_in_line(line.as_str()) {
                    Some(tok) => {
                        proof {
                            assert(first_capture(
                                str_views(lines@).subrange(i as int, n as int),
                            ) == line_capture(line@));
                            assert(extract_version_token(content@) == Some(tok@));
                        }
                        let trimmed = trim_str(tok.as_str());
                        return validate_sbt_version(trimmed);
                    },
                    None => {},
                }
                i = i + 1;
            }
            proof {
                assert(str_views(lines@).subrange(n as int, n as int) =~= Seq::<Seq<char>>::empty());
            }
            SBTVersion::UnknownVersionString(content.clone())
        },
    }
}

/// A lowercase hexadecimal digit.
pub open spec fn is_lower_hex_digit(c: char) -> bool {
    let u = c as u32;
    (0x30 <= u && u <= 0x39) || (0x61 <= u && u <= 0x66)
}

/// The hyphenated identifier shape: lowercase hex digits with hyphens at the
/// four fixed positions.
pub open spec fn is_hyphenated_identifier(s: Seq<char>) -> bool {
    s.len() == 36 && forall|i: int|
        0 <= i < 36 ==> (if i == 8 || i == 13 || i == 18 || i == 23 {
            s[i] == '-'
        } else {
            is_lower_hex_digit(#[trigger] s[i])
        })
}

/// Relies on `uuid::Uuid::new_v4` and its `Display` form: a fresh version-4
/// identifier rendered hyphenated, 36 characters. The identifier is random,
/// so only its shape is promised.
#[verifier::external_body]
fn random_uuid_string() -> (r: String)
    ensures
        is_hyphenated_identifier(r@),
{
    uuid::Uuid::new_v4().to_string()
}

/// A generated fallback project name: a fixed prefix and a fresh identifier.
pub fn default_project_name() -> (r: String)
    ensures
        r@.len() == 48,
        r@.subrange(0, 12) == "scoggle-gen-"@,
        is_hyphenated_identifier(r@.subrange(12, 48)),
{
    proof {
        reveal_strlit("scoggle-gen-");
    }
    let mut r = String::from_str("scoggle-gen-");
    let u = random_uuid_string();
    r.append(u.as_str());
    proof {
        assert(r@.subrange(0, 12) =~= "scoggle-gen-"@);
        assert(r@.subrange(12, 48) =~= u@);
    }
    r
}

/// The project name to use: the working directory's name where it is known,
/// and a generated fallback name otherwise.
pub fn get_project_name(project_name_type: &ProjectName) -> (r: String)
    ensures
        (project_name_type matches ProjectName::ProjectDir(pn) ==> r@ == pn@),
        (project_name_type matches ProjectName::Random() ==> r@.len() == 48 && r@.subrange(0, 12)
            == "scoggle-gen-"@ && is_hyphenated_identifier(r@.subrange(12, 48))),
{
    match project_name_type {
        ProjectName::ProjectDir(pn) => pn.clone(),
        ProjectName::Random() => default_project_name(),
    }
}

/// The output file's name: the project name and the fixed extension.
pub fn sublime_project_file_name(project_name: &str) -> (r: String)
    ensures
        r@ == project_name@ + ".sublime-project"@,
{
    let r = String::from_str(project_name);
    r.concat(".sublime-project")
}

} // verus!
