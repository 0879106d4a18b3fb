//! The regular expressions of the link grammar, as pattern texts.

use vstd::prelude::*;
use vstd::string::*;

verus! {

/// What replaces a space in a pattern: a class of the space and the
/// non-breaking space.
pub open spec fn either_space() -> Seq<char> {
    "[\u{a0} ]"@
}

/// `pattern` with every space replaced by [`either_space`].
pub open spec fn widen_spaces(pattern: Seq<char>) -> Seq<char>
    decreases pattern.len(),
{
    if pattern.len() == 0 {
        Seq::empty()
    } else if pattern.last() == ' ' {
        widen_spaces(pattern.drop_last()) + either_space()
    } else {
        widen_spaces(pattern.drop_last()).push(pattern.last())
    }
}

/// Rewrites a pattern so that each of its spaces also matches a
/// non-breaking space.
pub fn accept_non_breaking_spaces(pattern: &str) -> (widened: String)
    ensures
        widened@ == widen_spaces(pattern@),
{
    let mut widened = String::new();
    let n = pattern.unicode_len();
    let mut i: usize = 0;
    while i < n
        invariant
            n == pattern@.len(),
            i <= n,
            widened@ == widen_spaces(pattern@.take(i as int)),
        decreases n - i,
    {
        let c = pattern.get_char(i);
        proof {
            assert(pattern@.take(i + 1).drop_last() =~= pattern@.take(i as int));
        }
        if c == ' ' {
            widened.append("[\u{a0} ]");
        } else {
            widened.append(pattern.substring_char(i, i + 1));
            assert(pattern@.subrange(i as int, i + 1) =~= seq![c]);
            assert(widen_spaces(pattern@.take(i as int)) + seq![c] =~= widen_spaces(
                pattern@.take(i as int),
            ).push(c));
        }
        i += 1;
    }
    proof {
        assert(pattern@.take(n as int) =~= pattern@);
    }
    widened
}

/// The pattern of a capture group called `name` that takes a run of digits.
pub open spec fn number_group_pattern(name: Seq<char>) -> Seq<char> {
    "(?P<"@ + name + ">\\d+)"@
}

/// Pattern text of a capture group called `name` that takes a run of digits.
pub fn number_group(name: &str) -> (group: String)
    ensures
        group@ == number_group_pattern(name@),
{
    let mut group = String::from_str("(?P<");
    group.append(name);
    group.append(">\\d+)");
    group
}

/// What ends a clause: `$` where the annotation has to reach the end of the
/// text, nothing otherwise.
pub open spec fn end_anchor(eol_only: bool) -> Seq<char> {
    if eol_only {
        "$"@
    } else {
        ""@
    }
}

/// The names of the capture groups of the suffix pattern, a family of three
/// after another: rows, columns, row ends, column ends. Within a family the
/// names are numbered by the clause that they stand in.
pub open spec fn suffix_group_names() -> Seq<Seq<char>> {
    seq![
        "row0"@,
        "row1"@,
        "row2"@,
        "col0"@,
        "col1"@,
        "col2"@,
        "rowEnd0"@,
        "rowEnd1"@,
        "rowEnd2"@,
        "colEnd0"@,
        "colEnd1"@,
        "colEnd2"@,
    ]
}

/// The names of the capture groups of the suffix pattern.
pub fn link_suffix_group_names() -> (names: Vec<&'static str>)
    ensures
        names.deep_view() == suffix_group_names(),
{
    let names = vec![
        "row0",
        "row1",
        "row2",
        "col0",
        "col1",
        "col2",
        "rowEnd0",
        "rowEnd1",
        "rowEnd2",
        "colEnd0",
        "colEnd1",
        "colEnd2",
    ];
    assert(names.deep_view() =~= suffix_group_names());
    names
}

/// The clause for a row behind a separator: `foo:339`, `foo:339:12`,
/// `foo:339:12-789`, `foo:339.12-341.789`, `foo 339`, `foo#339`, `foo, 339`,
/// `"foo",339`.
pub open spec fn separator_clause(eol_only: bool) -> Seq<char> {
    "(?::|#| |['\"],|, )"@ + number_group_pattern("row0"@) + "([:.]"@ + number_group_pattern(
        "col0"@,
    ) + "(?:-(?:"@ + number_group_pattern("rowEnd0"@) + "\\.)?"@ + number_group_pattern(
        "colEnd0"@,
    ) + ")?)?"@ + end_anchor(eol_only)
}

/// The clause that spells the row out: `"foo", line 339`,
/// `"foo": line 339, col 12`, `"foo" on line 339, column 12`,
/// `"foo", lines 339-341, characters 12-789`. The quote is optional.
pub open spec fn worded_clause(eol_only: bool) -> Seq<char> {
    "['\"]?(?:,? |: ?| on )lines? "@ + number_group_pattern("row1"@) + "(?:-"@
        + number_group_pattern("rowEnd1"@) + ")?(?:,? (?:col(?:umn)?|characters?) "@
        + number_group_pattern("col1"@) + "(?:-"@ + number_group_pattern("colEnd1"@) + ")?)?"@
        + end_anchor(eol_only)
}

/// The clause for a row in brackets: `foo(339)`, `foo(339, 12)`,
/// `foo (339:12)`, `foo: [339,12]`.
pub open spec fn bracket_clause(eol_only: bool) -> Seq<char> {
    ":? ?[\\[\\(]"@ + number_group_pattern("row2"@) + "(?:(?:, ?|:)"@ + number_group_pattern(
        "col2"@,
    ) + ")?[\\]\\)]"@ + end_anchor(eol_only)
}

/// The pattern of a row and column annotation: the three clauses as
/// alternatives of one group, with every space widened to take a
/// non-breaking space too.
pub open spec fn link_suffix_pattern(eol_only: bool) -> Seq<char> {
    "("@ + widen_spaces(
        separator_clause(eol_only) + "|"@ + worded_clause(eol_only) + "|"@ + bracket_clause(
            eol_only,
        ),
    ) + ")"@
}

/// The text of what ends a clause.
fn end_anchor_text(eol_only: bool) -> (anchor: &'static str)
    ensures
        anchor@ == end_anchor(eol_only),
{
    if eol_only {
        "$"
    } else {
        ""
    }
}

/// Builds the clause for a row behind a separator.
fn separator_clause_text(eol_only: bool) -> (clause: String)
    ensures
        clause@ == separator_clause(eol_only),
{
    let mut clause = String::from_str("(?::|#| |['\"],|, )");
    clause.append(number_group("row0").as_str());
    clause.append("([:.]");
    clause.append(number_group("col0").as_str());
    clause.append("(?:-(?:");
    clause.append(number_group("rowEnd0").as_str());
    clause.append("\\.)?");
    clause.append(number_group("colEnd0").as_str());
    clause.append(")?)?");
    clause.append(end_anchor_text(eol_only));
    clause
}

/// Builds the clause that spells the row out.
fn worded_clause_text(eol_only: bool) -> (clause: String)
    ensures
        clause@ == worded_clause(eol_only),
{
    let mut clause = String::from_str("['\"]?(?:,? |: ?| on )lines? ");
    clause.append(number_group("row1").as_str());
    clause.append("(?:-");
    clause.append(number_group("rowEnd1").as_str());
    clause.append(")?(?:,? (?:col(?:umn)?|characters?) ");
    clause.append(number_group("col1").as_str());
    clause.append("(?:-");
    clause.append(number_group("colEnd1").as_str());
    clause.append(")?)?");
    clause.append(end_anchor_text(eol_only));
    clause
}

/// Builds the clause for a row in brackets.
fn bracket_clause_text(eol_only: bool) -> (clause: String)
    ensures
        clause@ == bracket_clause(eol_only),
{
    let mut clause = String::from_str(":? ?[\\[\\(]");
    clause.append(number_group("row2").as_str());
    clause.append("(?:(?:, ?|:)");
    clause.append(number_group("col2").as_str());
    clause.append(")?[\\]\\)]");
    clause.append(end_anchor_text(eol_only));
    clause
}

/// Builds the pattern that finds row and column annotations. With
/// `eol_only` an annotation only counts where it ends the text.
pub fn generate_link_suffix_regex(eol_only: bool) -> (pattern: String)
    ensures
        pattern@ == link_suffix_pattern(eol_only),
{
    let mut clauses = separator_clause_text(eol_only);
    clauses.append("|");
    clauses.append(worded_clause_text(eol_only).as_str());
    clauses.append("|");
    clauses.append(bracket_clause_text(eol_only).as_str());
    let mut pattern = String::from_str("(");
    pattern.append(accept_non_breaking_spaces(clauses.as_str()).as_str());
    pattern.append(")");
    pattern
}

/// The pieces that the path patterns are made of.
#[derive(Debug, Clone, Copy, PartialEq, Eq)]
pub enum RegexPathConstants {
    PathPrefix,
    PathSeparatorClause,
    ExcludedPathCharactersClause,
    ExcludedStartPathCharactersClause,
    WinOtherPathPrefix,
    WinPathSeparatorClause,
    WinExcludedPathCharactersClause,
    WinExcludedStartPathCharactersClause,
}

impl RegexPathConstants {
    /// The pattern text of a piece.
    ///
    /// The character classes say what a path may not hold. Quotes, colons
    /// and semicolons may stand in a path, but they separate more often than
    /// not. Outside Windows the backslash is left out as well, so that a
    /// malformed line cannot make the search run away. The classes for the
    /// first character of a path also leave out `[` and `]`, which keeps a
    /// bracketed annotation out of the path.
    pub open spec fn pattern(self) -> Seq<char> {
        match self {
            Self::PathPrefix => "(?:\\.\\.?|~|file:///)"@,
            Self::PathSeparatorClause => "/"@,
            Self::ExcludedPathCharactersClause => "[^\\x00<>\\?\\s`&*()'\":;\\\\]"@,
            Self::ExcludedStartPathCharactersClause => "[^\\x00<>\\?\\s`&*()\\[\\]'\":;\\\\]"@,
            Self::WinOtherPathPrefix => "\\.\\.?|~"@,
            Self::WinPathSeparatorClause => "(?:\\\\|/)"@,
            Self::WinExcludedPathCharactersClause => "[^\\x00<>\\?|\\\\/\\s`&*()'\":;]"@,
            Self::WinExcludedStartPathCharactersClause => "[^\\x00<>\\?|\\\\/\\s`&*()\\[\\]'\":;]"@,
        }
    }

    /// The pattern text of a piece.
    pub fn value(&self) -> (text: &'static str)
        ensures
            text@ == self.pattern(),
    {
        match self {
            Self::PathPrefix => "(?:\\.\\.?|~|file:///)",
            Self::PathSeparatorClause => "/",
            Self::ExcludedPathCharactersClause => "[^\\x00<>\\?\\s`&*()'\":;\\\\]",
            Self::ExcludedStartPathCharactersClause => "[^\\x00<>\\?\\s`&*()\\[\\]'\":;\\\\]",
            Self::WinOtherPathPrefix => "\\.\\.?|~",
            Self::WinPathSeparatorClause => "(?:\\\\|/)",
            Self::WinExcludedPathCharactersClause => "[^\\x00<>\\?|\\\\/\\s`&*()'\":;]",
            Self::WinExcludedStartPathCharactersClause => "[^\\x00<>\\?|\\\\/\\s`&*()\\[\\]'\":;]",
        }
    }
}

/// The pattern of a path outside Windows, such as `/foo`, `~/foo`, `./foo`,
/// `../foo` and `foo/bar`: an optional start, then one or more runs of path
/// characters with a separator in front of each.
pub open spec fn unix_local_link_pattern() -> Seq<char> {
    "(?:(?:"@ + RegexPathConstants::PathPrefix.pattern() + "|(?:"@
        + RegexPathConstants::ExcludedStartPathCharactersClause.pattern()
        + RegexPathConstants::ExcludedPathCharactersClause.pattern() + "*))?(?:"@
        + RegexPathConstants::PathSeparatorClause.pattern() + "(?:"@
        + RegexPathConstants::ExcludedPathCharactersClause.pattern() + ")+)+)"@
}

/// Builds the pattern of a path outside Windows.
pub fn unix_local_link_clause() -> (pattern: String)
    ensures
        pattern@ == unix_local_link_pattern(),
{
    let mut pattern = String::from_str("(?:(?:");
    pattern.append(RegexPathConstants::PathPrefix.value());
    pattern.append("|(?:");
    pattern.append(RegexPathConstants::ExcludedStartPathCharactersClause.value());
    pattern.append(RegexPathConstants::ExcludedPathCharactersClause.value());
    pattern.append("*))?(?:");
    pattern.append(RegexPathConstants::PathSeparatorClause.value());
    pattern.append("(?:");
    pattern.append(RegexPathConstants::ExcludedPathCharactersClause.value());
    pattern.append(")+)+)");
    pattern
}

/// The pattern of the start of an absolute path on Windows: a drive such as
/// `C:` or `c:`, which `file:///` or the marker `\\?\` may precede.
pub open spec fn win_drive_prefix_pattern() -> Seq<char> {
    "(?:\\\\\\\\\\?\\\\|file:///)?[a-zA-Z]:"@
}

/// The pattern text of the start of an absolute path on Windows.
pub fn win_drive_prefix() -> (text: &'static str)
    ensures
        text@ == win_drive_prefix_pattern(),
{
    "(?:\\\\\\\\\\?\\\\|file:///)?[a-zA-Z]:"
}

/// The pattern of a path on Windows, such as `\\?\c:\foo`, `c:\foo`,
/// `~\foo`, `.\foo`, `..\foo` and `foo\bar`.
pub open spec fn win_local_link_pattern() -> Seq<char> {
    "(?:(?:(?:"@ + win_drive_prefix_pattern() + "|"@
        + RegexPathConstants::WinOtherPathPrefix.pattern() + "))|(?:"@
        + RegexPathConstants::WinExcludedStartPathCharactersClause.pattern()
        + RegexPathConstants::WinExcludedPathCharactersClause.pattern() + "*))?(?:"@
        + RegexPathConstants::WinPathSeparatorClause.pattern() + "(?:"@
        + RegexPathConstants::WinExcludedPathCharactersClause.pattern() + ")+)+"@
}

/// Builds the pattern of a path on Windows.
pub fn win_local_link_clause() -> (pattern: String)
    ensures
        pattern@ == win_local_link_pattern(),
{
    let mut pattern = String::from_str("(?:(?:(?:");
    pattern.append(win_drive_prefix());
    pattern.append("|");
    pattern.append(RegexPathConstants::WinOtherPathPrefix.value());
    pattern.append("))|(?:");
    pattern.append(RegexPathConstants::WinExcludedStartPathCharactersClause.value());
    pattern.append(RegexPathConstants::WinExcludedPathCharactersClause.value());
    pattern.append("*))?(?:");
    pattern.append(RegexPathConstants::WinPathSeparatorClause.value());
    pattern.append("(?:");
    pattern.append(RegexPathConstants::WinExcludedPathCharactersClause.value());
    pattern.append(")+)+");
    pattern
}

/// The pattern of the path in front of an annotation: the longest run, up to
/// the end of the text, of characters that are neither white space nor one
/// of `|`, `<`, `>`; `file:///` may precede it. Its group is called `path`.
pub open spec fn path_before_suffix_pattern() -> Seq<char> {
    "(?P<path>(?:file:///)?[^\\s\\|<>]*)$"@
}

/// The pattern text of the path in front of an annotation.
pub fn link_with_suffix_path_characters() -> (text: &'static str)
    ensures
        text@ == path_before_suffix_pattern(),
{
    "(?P<path>(?:file:///)?[^\\s\\|<>]*)$"
}

/// The pattern of a quote that opens a path. Its group is called `prefix`.
pub open spec fn quote_prefix_pattern() -> Seq<char> {
    "^(?P<prefix>['\"])"@
}

/// The pattern text of a quote that opens a path.
pub fn quote_prefix() -> (text: &'static str)
    ensures
        text@ == quote_prefix_pattern(),
{
    "^(?P<prefix>['\"])"
}


} // verus!
