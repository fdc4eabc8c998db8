//! The scanner and block locator: a single pass over a configuration text
//! that recognises `profile <name> { ... }` blocks while skipping `#` line
//! comments and double-quoted strings (with backslash escapes), and matches
//! balanced braces.
//!
//! The scan is specified by a family of recursive functions over the
//! character sequence, each mirroring one phase of the pass: top-level
//! scanning, whitespace skipping after the keyword, name extraction up to the
//! opening brace, and body extraction up to the matching closing brace.

use vstd::prelude::*;
use crate::errors::GenerateError;
use crate::text::{
    chars_to_string,
    is_ascii_space,
    is_identifier_char,
    push_str_chars,
    push_u64_dec,
    spec_is_ascii_space,
    spec_is_identifier_char,
    spec_trim,
    spec_udec,
    subvec,
    trim_chars,
};

verus! {

/// One located `profile` block: its (trimmed) name, the offset of the
/// `profile` keyword, and the offset one past the closing brace. Offsets
/// count characters of the exact text the block was found in.
pub struct ProfileBlock {
    pub name: Vec<char>,
    pub start: usize,
    pub end: usize,
}

/// The mathematical counterpart of a located block.
pub ghost struct GBlock {
    pub name: Seq<char>,
    pub start: int,
    pub end: int,
}

impl View for ProfileBlock {
    type V = GBlock;

    open spec fn view(&self) -> GBlock {
        GBlock { name: self.name@, start: self.start as int, end: self.end as int }
    }
}

/// The ways a scan can fail.
pub ghost enum ParseIssue {
    /// The text ended before the opening brace of a candidate block.
    MissingBrace { at: int },
    /// The candidate block had a blank name before its opening brace.
    EmptyName { at: int },
    /// The text ended before the braces of the named block balanced.
    Unclosed { name: Seq<char> },
}

/// The characters of the block keyword.
pub open spec fn spec_keyword() -> Seq<char> {
    seq!['p', 'r', 'o', 'f', 'i', 'l', 'e']
}

/// A candidate block starts at `i`: the keyword appears there, is not
/// preceded by an identifier character, and is followed by ASCII whitespace.
pub open spec fn spec_is_profile_start(s: Seq<char>, i: int) -> bool {
    &&& 0 <= i
    &&& i + 7 < s.len()
    &&& s.subrange(i, i + 7) == spec_keyword()
    &&& (i == 0 || !spec_is_identifier_char(s[i - 1]))
    &&& spec_is_ascii_space(s[i + 7])
}

/// Body extraction: from `j`, in scanner state `(cm, instr, esc)` with
/// `depth` open braces, up to the brace that balances the block opened at
/// `start` whose name is `name`.
pub open spec fn spec_scan_body(
    s: Seq<char>,
    start: int,
    name: Seq<char>,
    depth: int,
    j: int,
    cm: bool,
    instr: bool,
    esc: bool,
) -> Result<(GBlock, int), ParseIssue>
    decreases s.len() - j,
    when 0 <= j <= s.len()
{
    if j >= s.len() {
        Err(ParseIssue::Unclosed { name })
    } else if cm {
        spec_scan_body(s, start, name, depth, j + 1, s[j] != '\n', instr, esc)
    } else if instr {
        if esc {
            spec_scan_body(s, start, name, depth, j + 1, cm, instr, false)
        } else if s[j] == '\\' {
            spec_scan_body(s, start, name, depth, j + 1, cm, instr, true)
        } else if s[j] == '"' {
            spec_scan_body(s, start, name, depth, j + 1, cm, false, esc)
        } else {
            spec_scan_body(s, start, name, depth, j + 1, cm, instr, esc)
        }
    } else if s[j] == '#' {
        spec_scan_body(s, start, name, depth, j + 1, true, instr, esc)
    } else if s[j] == '"' {
        spec_scan_body(s, start, name, depth, j + 1, cm, true, esc)
    } else if s[j] == '{' {
        spec_scan_body(s, start, name, depth + 1, j + 1, cm, instr, esc)
    } else if s[j] == '}' {
        if depth == 1 {
            Ok((GBlock { name, start, end: j + 1 }, j + 1))
        } else {
            spec_scan_body(s, start, name, depth - 1, j + 1, cm, instr, esc)
        }
    } else {
        spec_scan_body(s, start, name, depth, j + 1, cm, instr, esc)
    }
}

/// Name extraction: from `j`, in scanner state `(cm, instr, esc)`, up to the
/// first `{` outside comments and strings; the name is the trimmed text
/// between `name_start` and that brace.
pub open spec fn spec_scan_name(
    s: Seq<char>,
    start: int,
    name_start: int,
    j: int,
    cm: bool,
    instr: bool,
    esc: bool,
) -> Result<(GBlock, int), ParseIssue>
    decreases s.len() - j,
    when 0 <= j <= s.len()
{
    if j >= s.len() {
        Err(ParseIssue::MissingBrace { at: start })
    } else if cm {
        spec_scan_name(s, start, name_start, j + 1, s[j] != '\n', instr, esc)
    } else if instr {
        if esc {
            spec_scan_name(s, start, name_start, j + 1, cm, instr, false)
        } else if s[j] == '\\' {
            spec_scan_name(s, start, name_start, j + 1, cm, instr, true)
        } else if s[j] == '"' {
            spec_scan_name(s, start, name_start, j + 1, cm, false, esc)
        } else {
            spec_scan_name(s, start, name_start, j + 1, cm, instr, esc)
        }
    } else if s[j] == '#' {
        spec_scan_name(s, start, name_start, j + 1, true, instr, esc)
    } else if s[j] == '"' {
        spec_scan_name(s, start, name_start, j + 1, cm, true, esc)
    } else if s[j] == '{' {
        if spec_trim(s.subrange(name_start, j)).len() == 0 {
            Err(ParseIssue::EmptyName { at: start })
        } else {
            spec_scan_body(s, start, spec_trim(s.subrange(name_start, j)), 1, j + 1, false, false, false)
        }
    } else {
        spec_scan_name(s, start, name_start, j + 1, cm, instr, esc)
    }
}

/// Whitespace skipping between the keyword at `start` and the block name.
pub open spec fn spec_scan_ws(s: Seq<char>, start: int, j: int) -> Result<(GBlock, int), ParseIssue>
    decreases s.len() - j,
    when 0 <= j <= s.len()
{
    if j < s.len() && spec_is_ascii_space(s[j]) {
        spec_scan_ws(s, start, j + 1)
    } else {
        spec_scan_name(s, start, j, j, false, false, false)
    }
}

/// One whole block parse, entered at the keyword offset `start`.
pub open spec fn spec_parse_block(s: Seq<char>, start: int) -> Result<(GBlock, int), ParseIssue> {
    spec_scan_ws(s, start, start + 7)
}

pub proof fn lemma_scan_body_next(
    s: Seq<char>,
    start: int,
    name: Seq<char>,
    depth: int,
    j: int,
    cm: bool,
    instr: bool,
    esc: bool,
)
    requires
        0 <= j <= s.len(),
    ensures
        spec_scan_body(s, start, name, depth, j, cm, instr, esc) matches Ok(bn) ==> {
            &&& j < bn.1 <= s.len()
            &&& bn.0.start == start
            &&& bn.0.end == bn.1
            &&& bn.0.name == name
            &&& s[bn.1 - 1] == '}'
        },
    decreases s.len() - j,
{
    if j < s.len() {
        if cm {
            lemma_scan_body_next(s, start, name, depth, j + 1, s[j] != '\n', instr, esc);
        } else if instr {
            if esc {
                lemma_scan_body_next(s, start, name, depth, j + 1, cm, instr, false);
            } else if s[j] == '\\' {
                lemma_scan_body_next(s, start, name, depth, j + 1, cm, instr, true);
            } else if s[j] == '"' {
                lemma_scan_body_next(s, start, name, depth, j + 1, cm, false, esc);
            } else {
                lemma_scan_body_next(s, start, name, depth, j + 1, cm, instr, esc);
            }
        } else if s[j] == '#' {
            lemma_scan_body_next(s, start, name, depth, j + 1, true, instr, esc);
        } else if s[j] == '"' {
            lemma_scan_body_next(s, start, name, depth, j + 1, cm, true, esc);
        } else if s[j] == '{' {
            lemma_scan_body_next(s, start, name, depth + 1, j + 1, cm, instr, esc);
        } else if s[j] == '}' {
            if depth != 1 {
                lemma_scan_body_next(s, start, name, depth - 1, j + 1, cm, instr, esc);
            }
        } else {
            lemma_scan_body_next(s, start, name, depth, j + 1, cm, instr, esc);
        }
    }
}

pub proof fn lemma_scan_name_next(
    s: Seq<char>,
    start: int,
    name_start: int,
    j: int,
    cm: bool,
    instr: bool,
    esc: bool,
)
    requires
        0 <= j <= s.len(),
    ensures
        spec_scan_name(s, start, name_start, j, cm, instr, esc) matches Ok(bn) ==> {
            &&& j < bn.1 <= s.len()
            &&& bn.0.start == start
            &&& bn.0.end == bn.1
            &&& s[bn.1 - 1] == '}'
        },
    decreases s.len() - j,
{
    if j < s.len() {
        if cm {
            lemma_scan_name_next(s, start, name_start, j + 1, s[j] != '\n', instr, esc);
        } else if instr {
            if esc {
                lemma_scan_name_next(s, start, name_start, j + 1, cm, instr, false);
            } else if s[j] == '\\' {
                lemma_scan_name_next(s, start, name_start, j + 1, cm, instr, true);
            } else if s[j] == '"' {
                lemma_scan_name_next(s, start, name_start, j + 1, cm, false, esc);
            } else {
                lemma_scan_name_next(s, start, name_start, j + 1, cm, instr, esc);
            }
        } else if s[j] == '#' {
            lemma_scan_name_next(s, start, name_start, j + 1, true, instr, esc);
        } else if s[j] == '"' {
            lemma_scan_name_next(s, start, name_start, j + 1, cm, true, esc);
        } else if s[j] == '{' {
            let name = spec_trim(s.subrange(name_start, j));
            if name.len() != 0 {
                lemma_scan_body_next(s, start, name, 1, j + 1, false, false, false);
            }
        } else {
            lemma_scan_name_next(s, start, name_start, j + 1, cm, instr, esc);
        }
    }
}

pub proof fn lemma_scan_ws_next(s: Seq<char>, start: int, j: int)
    requires
        0 <= j <= s.len(),
    ensures
        spec_scan_ws(s, start, j) matches Ok(bn) ==> {
            &&& j < bn.1 <= s.len()
            &&& bn.0.start == start
            &&& bn.0.end == bn.1
            &&& s[bn.1 - 1] == '}'
        },
    decreases s.len() - j,
{
    if j < s.len() && spec_is_ascii_space(s[j]) {
        lemma_scan_ws_next(s, start, j + 1);
    } else {
        lemma_scan_name_next(s, start, j, j, false, false, false);
    }
}

pub proof fn lemma_parse_block_next(s: Seq<char>, start: int)
    requires
        0 <= start,
        start + 7 < s.len(),
    ensures
        spec_parse_block(s, start) matches Ok(bn) ==> {
            &&& start < bn.1 <= s.len()
            &&& bn.0.start == start
            &&& bn.0.end == bn.1
            &&& s[bn.1 - 1] == '}'
        },
{
    lemma_scan_ws_next(s, start, start + 7);
}

/// Top-level scanning from `i` in scanner state `(cm, instr, esc)`: the
/// blocks found in the remainder of the text, in order of appearance.
pub open spec fn spec_scan_top(
    s: Seq<char>,
    i: int,
    cm: bool,
    instr: bool,
    esc: bool,
) -> Result<Seq<GBlock>, ParseIssue>
    decreases s.len() - i,
    when 0 <= i <= s.len()
{
    if i >= s.len() {
        Ok(Seq::empty())
    } else if cm {
        spec_scan_top(s, i + 1, s[i] != '\n', instr, esc)
    } else if instr {
        if esc {
            spec_scan_top(s, i + 1, cm, instr, false)
        } else if s[i] == '\\' {
            spec_scan_top(s, i + 1, cm, instr, true)
        } else if s[i] == '"' {
            spec_scan_top(s, i + 1, cm, false, esc)
        } else {
            spec_scan_top(s, i + 1, cm, instr, esc)
        }
    } else if s[i] == '#' {
        spec_scan_top(s, i + 1, true, instr, esc)
    } else if s[i] == '"' {
        spec_scan_top(s, i + 1, cm, true, esc)
    } else if spec_is_profile_start(s, i) {
        proof {
            lemma_parse_block_next(s, i);
        }
        match spec_parse_block(s, i) {
            Ok(bn) => match spec_scan_top(s, bn.1, false, false, false) {
                Ok(rest) => Ok(seq![bn.0] + rest),
                Err(e) => Err(e),
            },
            Err(e) => Err(e),
        }
    } else {
        spec_scan_top(s, i + 1, cm, instr, esc)
    }
}

/// The blocks of a whole configuration text, or the first issue found.
pub open spec fn spec_parse_profile_blocks(s: Seq<char>) -> Result<Seq<GBlock>, ParseIssue> {
    spec_scan_top(s, 0, false, false, false)
}

/// Every located block arises from a candidate start, parses there, and the
/// scan continues after it in default state with exactly the later blocks.
pub proof fn lemma_scan_top_decompose(s: Seq<char>, i: int, cm: bool, instr: bool, esc: bool)
    requires
        0 <= i <= s.len(),
    ensures
        spec_scan_top(s, i, cm, instr, esc) matches Ok(bs) ==> forall|k: int|
            0 <= k < bs.len() ==> {
                &&& spec_is_profile_start(s, (#[trigger] bs[k]).start)
                &&& spec_parse_block(s, bs[k].start) == Ok::<(GBlock, int), ParseIssue>(
                    (bs[k], bs[k].end),
                )
                &&& spec_scan_top(s, bs[k].end, false, false, false) == Ok::<
                    Seq<GBlock>,
                    ParseIssue,
                >(bs.skip(k + 1))
            },
    decreases s.len() - i,
{
    if i < s.len() {
        if cm {
            lemma_scan_top_decompose(s, i + 1, s[i] != '\n', instr, esc);
        } else if instr {
            if esc {
                lemma_scan_top_decompose(s, i + 1, cm, instr, false);
            } else if s[i] == '\\' {
                lemma_scan_top_decompose(s, i + 1, cm, instr, true);
            } else if s[i] == '"' {
                lemma_scan_top_decompose(s, i + 1, cm, false, esc);
            } else {
                lemma_scan_top_decompose(s, i + 1, cm, instr, esc);
            }
        } else if s[i] == '#' {
            lemma_scan_top_decompose(s, i + 1, true, instr, esc);
        } else if s[i] == '"' {
            lemma_scan_top_decompose(s, i + 1, cm, true, esc);
        } else if spec_is_profile_start(s, i) {
            lemma_parse_block_next(s, i);
            match spec_parse_block(s, i) {
                Ok(bn) => {
                    lemma_scan_top_decompose(s, bn.1, false, false, false);
                    match spec_scan_top(s, bn.1, false, false, false) {
                        Ok(rest) => {
                            let bs = seq![bn.0] + rest;
                            assert(bs[0] == bn.0);
                            assert(bs.skip(1) =~= rest);
                            assert forall|k: int|
                                0 <= k < bs.len() implies {
                                &&& spec_is_profile_start(s, (#[trigger] bs[k]).start)
                                &&& spec_parse_block(s, bs[k].start) == Ok::<
                                    (GBlock, int),
                                    ParseIssue,
                                >((bs[k], bs[k].end))
                                &&& spec_scan_top(s, bs[k].end, false, false, false) == Ok::<
                                    Seq<GBlock>,
                                    ParseIssue,
                                >(bs.skip(k + 1))
                            } by {
                                if k == 0 {
                                    assert(bs.skip(1) =~= rest);
                                } else {
                                    assert(bs[k] == rest[k - 1]);
                                    assert(bs.skip(k + 1) =~= rest.skip(k));
                                }
                            }
                        },
                        Err(e) => {},
                    }
                },
                Err(e) => {},
            }
        } else {
            lemma_scan_top_decompose(s, i + 1, cm, instr, esc);
        }
    }
}

// ---------------------------------------------------------------------------
// Translation: the scan depends only on the text from the current position
// on, and on whether an identifier character immediately precedes it.
// ---------------------------------------------------------------------------

/// The blocks shifted by `d` characters.
pub open spec fn spec_shift_blocks(bs: Seq<GBlock>, d: int) -> Seq<GBlock> {
    bs.map_values(|b: GBlock| GBlock { name: b.name, start: b.start + d, end: b.end + d })
}

/// A scan issue shifted by `d` characters.
pub open spec fn spec_shift_issue(e: ParseIssue, d: int) -> ParseIssue {
    match e {
        ParseIssue::MissingBrace { at } => ParseIssue::MissingBrace { at: at + d },
        ParseIssue::EmptyName { at } => ParseIssue::EmptyName { at: at + d },
        ParseIssue::Unclosed { name } => ParseIssue::Unclosed { name },
    }
}

/// The shifted form of a block-parse outcome.
pub open spec fn spec_shift_block_result(
    r: Result<(GBlock, int), ParseIssue>,
    d: int,
) -> Result<(GBlock, int), ParseIssue> {
    match r {
        Ok(bn) => Ok(
            (GBlock { name: bn.0.name, start: bn.0.start + d, end: bn.0.end + d }, bn.1 + d),
        ),
        Err(e) => Err(spec_shift_issue(e, d)),
    }
}

pub proof fn lemma_scan_body_translate(
    s1: Seq<char>,
    s2: Seq<char>,
    start: int,
    name: Seq<char>,
    depth: int,
    j: int,
    d: int,
    cm: bool,
    instr: bool,
    esc: bool,
)
    requires
        0 <= j <= s1.len(),
        0 <= j + d,
        s2.len() == s1.len() + d,
        forall|k: int| j <= k < s1.len() ==> s1[k] == s2[k + d],
    ensures
        spec_scan_body(s2, start + d, name, depth, j + d, cm, instr, esc)
            == spec_shift_block_result(
            spec_scan_body(s1, start, name, depth, j, cm, instr, esc),
            d,
        ),
    decreases s1.len() - j,
{
    if j >= s1.len() {
    } else {
        assert(s1[j] == s2[j + d]);
        if cm {
            lemma_scan_body_translate(s1, s2, start, name, depth, j + 1, d, s1[j] != '\n', instr, esc);
        } else if instr {
            if esc {
                lemma_scan_body_translate(s1, s2, start, name, depth, j + 1, d, cm, instr, false);
            } else if s1[j] == '\\' {
                lemma_scan_body_translate(s1, s2, start, name, depth, j + 1, d, cm, instr, true);
            } else if s1[j] == '"' {
                lemma_scan_body_translate(s1, s2, start, name, depth, j + 1, d, cm, false, esc);
            } else {
                lemma_scan_body_translate(s1, s2, start, name, depth, j + 1, d, cm, instr, esc);
            }
        } else if s1[j] == '#' {
            lemma_scan_body_translate(s1, s2, start, name, depth, j + 1, d, true, instr, esc);
        } else if s1[j] == '"' {
            lemma_scan_body_translate(s1, s2, start, name, depth, j + 1, d, cm, true, esc);
        } else if s1[j] == '{' {
            lemma_scan_body_translate(s1, s2, start, name, depth + 1, j + 1, d, cm, instr, esc);
        } else if s1[j] == '}' {
            if depth != 1 {
                lemma_scan_body_translate(s1, s2, start, name, depth - 1, j + 1, d, cm, instr, esc);
            }
        } else {
            lemma_scan_body_translate(s1, s2, start, name, depth, j + 1, d, cm, instr, esc);
        }
    }
}

pub proof fn lemma_scan_name_translate(
    s1: Seq<char>,
    s2: Seq<char>,
    start: int,
    name_start: int,
    j: int,
    d: int,
    cm: bool,
    instr: bool,
    esc: bool,
)
    requires
        0 <= name_start <= j <= s1.len(),
        0 <= name_start + d,
        s2.len() == s1.len() + d,
        forall|k: int| name_start <= k < s1.len() ==> s1[k] == s2[k + d],
    ensures
        spec_scan_name(s2, start + d, name_start + d, j + d, cm, instr, esc)
            == spec_shift_block_result(
            spec_scan_name(s1, start, name_start, j, cm, instr, esc),
            d,
        ),
    decreases s1.len() - j,
{
    if j >= s1.len() {
    } else {
        assert(s1[j] == s2[j + d]);
        if cm {
            lemma_scan_name_translate(s1, s2, start, name_start, j + 1, d, s1[j] != '\n', instr, esc);
        } else if instr {
            if esc {
                lemma_scan_name_translate(s1, s2, start, name_start, j + 1, d, cm, instr, false);
            } else if s1[j] == '\\' {
                lemma_scan_name_translate(s1, s2, start, name_start, j + 1, d, cm, instr, true);
            } else if s1[j] == '"' {
                lemma_scan_name_translate(s1, s2, start, name_start, j + 1, d, cm, false, esc);
            } else {
                lemma_scan_name_translate(s1, s2, start, name_start, j + 1, d, cm, instr, esc);
            }
        } else if s1[j] == '#' {
            lemma_scan_name_translate(s1, s2, start, name_start, j + 1, d, true, instr, esc);
        } else if s1[j] == '"' {
            lemma_scan_name_translate(s1, s2, start, name_start, j + 1, d, cm, true, esc);
        } else if s1[j] == '{' {
            assert(s1.subrange(name_start, j) =~= s2.subrange(name_start + d, j + d));
            if spec_trim(s1.subrange(name_start, j)).len() != 0 {
                lemma_scan_body_translate(
                    s1,
                    s2,
                    start,
                    spec_trim(s1.subrange(name_start, j)),
                    1,
                    j + 1,
                    d,
                    false,
                    false,
                    false,
                );
            }
        } else {
            lemma_scan_name_translate(s1, s2, start, name_start, j + 1, d, cm, instr, esc);
        }
    }
}

pub proof fn lemma_scan_ws_translate(s1: Seq<char>, s2: Seq<char>, start: int, j: int, d: int)
    requires
        0 <= j <= s1.len(),
        0 <= j + d,
        s2.len() == s1.len() + d,
        forall|k: int| j <= k < s1.len() ==> s1[k] == s2[k + d],
    ensures
        spec_scan_ws(s2, start + d, j + d) == spec_shift_block_result(
            spec_scan_ws(s1, start, j),
            d,
        ),
    decreases s1.len() - j,
{
    if j < s1.len() && spec_is_ascii_space(s1[j]) {
        assert(s1[j] == s2[j + d]);
        lemma_scan_ws_translate(s1, s2, start, j + 1, d);
    } else {
        if j < s1.len() {
            assert(s1[j] == s2[j + d]);
        }
        lemma_scan_name_translate(s1, s2, start, j, j, d, false, false, false);
    }
}

pub proof fn lemma_parse_block_translate(s1: Seq<char>, s2: Seq<char>, start: int, d: int)
    requires
        0 <= start,
        start + 7 <= s1.len(),
        0 <= start + d,
        s2.len() == s1.len() + d,
        forall|k: int| start <= k < s1.len() ==> s1[k] == s2[k + d],
    ensures
        spec_parse_block(s2, start + d) == spec_shift_block_result(
            spec_parse_block(s1, start),
            d,
        ),
{
    lemma_scan_ws_translate(s1, s2, start, start + 7, d);
}

pub proof fn lemma_scan_top_translate(
    s1: Seq<char>,
    s2: Seq<char>,
    i: int,
    d: int,
    cm: bool,
    instr: bool,
    esc: bool,
)
    requires
        0 <= i <= s1.len(),
        0 <= i + d,
        s2.len() == s1.len() + d,
        forall|k: int| i <= k < s1.len() ==> s1[k] == s2[k + d],
        (i > 0 && spec_is_identifier_char(s1[i - 1])) == (i + d > 0 && spec_is_identifier_char(
            s2[i + d - 1],
        )),
    ensures
        spec_scan_top(s2, i + d, cm, instr, esc) == (match spec_scan_top(s1, i, cm, instr, esc) {
            Ok(bs) => Ok::<Seq<GBlock>, ParseIssue>(spec_shift_blocks(bs, d)),
            Err(e) => Err::<Seq<GBlock>, ParseIssue>(spec_shift_issue(e, d)),
        }),
    decreases s1.len() - i,
{
    if i >= s1.len() {
        assert(spec_shift_blocks(Seq::empty(), d) =~= Seq::<GBlock>::empty());
    } else {
        assert(s1[i] == s2[i + d]);
        assert(spec_is_profile_start(s1, i) == spec_is_profile_start(s2, i + d)) by {
            if i + 7 < s1.len() {
                assert(s1.subrange(i, i + 7) =~= s2.subrange(i + d, i + d + 7));
                assert(s1[i + 7] == s2[i + d + 7]);
            }
        }
        if cm {
            lemma_scan_top_translate(s1, s2, i + 1, d, s1[i] != '\n', instr, esc);
        } else if instr {
            if esc {
                lemma_scan_top_translate(s1, s2, i + 1, d, cm, instr, false);
            } else if s1[i] == '\\' {
                lemma_scan_top_translate(s1, s2, i + 1, d, cm, instr, true);
            } else if s1[i] == '"' {
                lemma_scan_top_translate(s1, s2, i + 1, d, cm, false, esc);
            } else {
                lemma_scan_top_translate(s1, s2, i + 1, d, cm, instr, esc);
            }
        } else if s1[i] == '#' {
            lemma_scan_top_translate(s1, s2, i + 1, d, true, instr, esc);
        } else if s1[i] == '"' {
            lemma_scan_top_translate(s1, s2, i + 1, d, cm, true, esc);
        } else if spec_is_profile_start(s1, i) {
            lemma_parse_block_next(s1, i);
            lemma_parse_block_translate(s1, s2, i, d);
            match spec_parse_block(s1, i) {
                Ok(bn) => {
                    assert(s1[bn.1 - 1] == '}');
                    assert(s2[bn.1 - 1 + d] == '}');
                    lemma_scan_top_translate(s1, s2, bn.1, d, false, false, false);
                    match spec_scan_top(s1, bn.1, false, false, false) {
                        Ok(rest) => {
                            assert(spec_shift_blocks(seq![bn.0] + rest, d) =~= seq![
                                GBlock { name: bn.0.name, start: bn.0.start + d, end: bn.0.end + d },
                            ] + spec_shift_blocks(rest, d));
                        },
                        Err(e) => {},
                    }
                },
                Err(e) => {},
            }
        } else {
            lemma_scan_top_translate(s1, s2, i + 1, d, cm, instr, esc);
        }
    }
}

/// Every block a scan finds lies inside the text, after the point the scan
/// started from, and the blocks come in order and do not overlap.
pub proof fn lemma_scan_top_wf(s: Seq<char>, i: int, cm: bool, instr: bool, esc: bool)
    requires
        0 <= i <= s.len(),
    ensures
        spec_scan_top(s, i, cm, instr, esc) matches Ok(bs) ==> {
            &&& forall|k: int|
                0 <= k < bs.len() ==> i <= (#[trigger] bs[k]).start < bs[k].end <= s.len()
            &&& forall|k: int| 0 <= k < bs.len() - 1 ==> (#[trigger] bs[k]).end <= bs[k + 1].start
        },
    decreases s.len() - i,
{
    if i < s.len() {
        if cm {
            lemma_scan_top_wf(s, i + 1, s[i] != '\n', instr, esc);
        } else if instr {
            if esc {
                lemma_scan_top_wf(s, i + 1, cm, instr, false);
            } else if s[i] == '\\' {
                lemma_scan_top_wf(s, i + 1, cm, instr, true);
            } else if s[i] == '"' {
                lemma_scan_top_wf(s, i + 1, cm, false, esc);
            } else {
                lemma_scan_top_wf(s, i + 1, cm, instr, esc);
            }
        } else if s[i] == '#' {
            lemma_scan_top_wf(s, i + 1, true, instr, esc);
        } else if s[i] == '"' {
            lemma_scan_top_wf(s, i + 1, cm, true, esc);
        } else if spec_is_profile_start(s, i) {
            lemma_parse_block_next(s, i);
            match spec_parse_block(s, i) {
                Ok(bn) => {
                    lemma_scan_top_wf(s, bn.1, false, false, false);
                    match spec_scan_top(s, bn.1, false, false, false) {
                        Ok(rest) => {
                            let bs = seq![bn.0] + rest;
                            assert(bs[0] == bn.0);
                            assert(forall|k: int| 0 <= k < rest.len() ==> bs[k + 1] == rest[k]);
                            assert forall|k: int|
                                0 <= k < bs.len() implies i <= (#[trigger] bs[k]).start < bs[k].end
                                <= s.len() by {
                                if k > 0 {
                                    assert(bs[k] == rest[k - 1]);
                                }
                            }
                            assert forall|k: int|
                                0 <= k < bs.len() - 1 implies (#[trigger] bs[k]).end <= bs[k
                                + 1].start by {
                                if k == 0 {
                                    if rest.len() > 0 {
                                        assert(bs[1] == rest[0]);
                                    }
                                } else {
                                    assert(bs[k] == rest[k - 1]);
                                    assert(bs[k + 1] == rest[k]);
                                }
                            }
                        },
                        Err(e) => {},
                    }
                },
                Err(e) => {},
            }
        } else {
            lemma_scan_top_wf(s, i + 1, cm, instr, esc);
        }
    }
}

/// The views of a vector of located blocks.
pub open spec fn spec_blocks_view(bs: Seq<ProfileBlock>) -> Seq<GBlock> {
    bs.map_values(|b: ProfileBlock| b@)
}

// ---------------------------------------------------------------------------
// Locality: a block parse that succeeds reads only the characters of the
// block itself, so any text agreeing on that range parses it the same way.
// ---------------------------------------------------------------------------

pub proof fn lemma_scan_body_local(
    s1: Seq<char>,
    s2: Seq<char>,
    start: int,
    name: Seq<char>,
    depth: int,
    j: int,
    d: int,
    cm: bool,
    instr: bool,
    esc: bool,
)
    requires
        0 <= j <= s1.len(),
        0 <= j + d,
        spec_scan_body(s1, start, name, depth, j, cm, instr, esc) matches Ok(bn) && {
            &&& bn.1 + d <= s2.len()
            &&& forall|k: int| j <= k < bn.1 ==> s1[k] == s2[k + d]
        },
    ensures
        spec_scan_body(s2, start + d, name, depth, j + d, cm, instr, esc)
            == spec_shift_block_result(
            spec_scan_body(s1, start, name, depth, j, cm, instr, esc),
            d,
        ),
    decreases s1.len() - j,
{
    lemma_scan_body_next(s1, start, name, depth, j, cm, instr, esc);
    let bn = spec_scan_body(s1, start, name, depth, j, cm, instr, esc)->Ok_0;
    assert(j < bn.1 <= s1.len());
    assert(s1[j] == s2[j + d]);
    if cm {
        lemma_scan_body_local(s1, s2, start, name, depth, j + 1, d, s1[j] != '\n', instr, esc);
    } else if instr {
        if esc {
            lemma_scan_body_local(s1, s2, start, name, depth, j + 1, d, cm, instr, false);
        } else if s1[j] == '\\' {
            lemma_scan_body_local(s1, s2, start, name, depth, j + 1, d, cm, instr, true);
        } else if s1[j] == '"' {
            lemma_scan_body_local(s1, s2, start, name, depth, j + 1, d, cm, false, esc);
        } else {
            lemma_scan_body_local(s1, s2, start, name, depth, j + 1, d, cm, instr, esc);
        }
    } else if s1[j] == '#' {
        lemma_scan_body_local(s1, s2, start, name, depth, j + 1, d, true, instr, esc);
    } else if s1[j] == '"' {
        lemma_scan_body_local(s1, s2, start, name, depth, j + 1, d, cm, true, esc);
    } else if s1[j] == '{' {
        lemma_scan_body_local(s1, s2, start, name, depth + 1, j + 1, d, cm, instr, esc);
    } else if s1[j] == '}' {
        if depth != 1 {
            lemma_scan_body_local(s1, s2, start, name, depth - 1, j + 1, d, cm, instr, esc);
        }
    } else {
        lemma_scan_body_local(s1, s2, start, name, depth, j + 1, d, cm, instr, esc);
    }
}

pub proof fn lemma_scan_name_local(
    s1: Seq<char>,
    s2: Seq<char>,
    start: int,
    name_start: int,
    j: int,
    d: int,
    cm: bool,
    instr: bool,
    esc: bool,
)
    requires
        0 <= name_start <= j <= s1.len(),
        0 <= name_start + d,
        spec_scan_name(s1, start, name_start, j, cm, instr, esc) matches Ok(bn) && {
            &&& bn.1 + d <= s2.len()
            &&& forall|k: int| name_start <= k < bn.1 ==> s1[k] == s2[k + d]
        },
    ensures
        spec_scan_name(s2, start + d, name_start + d, j + d, cm, instr, esc)
            == spec_shift_block_result(
            spec_scan_name(s1, start, name_start, j, cm, instr, esc),
            d,
        ),
    decreases s1.len() - j,
{
    lemma_scan_name_next(s1, start, name_start, j, cm, instr, esc);
    let bn = spec_scan_name(s1, start, name_start, j, cm, instr, esc)->Ok_0;
    assert(j < bn.1 <= s1.len());
    assert(s1[j] == s2[j + d]);
    if cm {
        lemma_scan_name_local(s1, s2, start, name_start, j + 1, d, s1[j] != '\n', instr, esc);
    } else if instr {
        if esc {
            lemma_scan_name_local(s1, s2, start, name_start, j + 1, d, cm, instr, false);
        } else if s1[j] == '\\' {
            lemma_scan_name_local(s1, s2, start, name_start, j + 1, d, cm, instr, true);
        } else if s1[j] == '"' {
            lemma_scan_name_local(s1, s2, start, name_start, j + 1, d, cm, false, esc);
        } else {
            lemma_scan_name_local(s1, s2, start, name_start, j + 1, d, cm, instr, esc);
        }
    } else if s1[j] == '#' {
        lemma_scan_name_local(s1, s2, start, name_start, j + 1, d, true, instr, esc);
    } else if s1[j] == '"' {
        lemma_scan_name_local(s1, s2, start, name_start, j + 1, d, cm, true, esc);
    } else if s1[j] == '{' {
        lemma_scan_body_next(
            s1,
            start,
            spec_trim(s1.subrange(name_start, j)),
            1,
            j + 1,
            false,
            false,
            false,
        );
        assert(s1.subrange(name_start, j) =~= s2.subrange(name_start + d, j + d));
        lemma_scan_body_local(
            s1,
            s2,
            start,
            spec_trim(s1.subrange(name_start, j)),
            1,
            j + 1,
            d,
            false,
            false,
            false,
        );
    } else {
        lemma_scan_name_local(s1, s2, start, name_start, j + 1, d, cm, instr, esc);
    }
}

pub proof fn lemma_scan_ws_local(s1: Seq<char>, s2: Seq<char>, start: int, j: int, d: int)
    requires
        0 <= j <= s1.len(),
        0 <= j + d,
        spec_scan_ws(s1, start, j) matches Ok(bn) && {
            &&& bn.1 + d <= s2.len()
            &&& forall|k: int| j <= k < bn.1 ==> s1[k] == s2[k + d]
        },
    ensures
        spec_scan_ws(s2, start + d, j + d) == spec_shift_block_result(
            spec_scan_ws(s1, start, j),
            d,
        ),
    decreases s1.len() - j,
{
    lemma_scan_ws_next(s1, start, j);
    let bn = spec_scan_ws(s1, start, j)->Ok_0;
    assert(j < bn.1 <= s1.len());
    assert(s1[j] == s2[j + d]);
    if j < s1.len() && spec_is_ascii_space(s1[j]) {
        lemma_scan_ws_local(s1, s2, start, j + 1, d);
    } else {
        lemma_scan_name_local(s1, s2, start, j, j, d, false, false, false);
    }
}

/// A successful block parse depends only on the characters from the keyword
/// to the closing brace.
pub proof fn lemma_parse_block_local(s1: Seq<char>, s2: Seq<char>, start: int, d: int)
    requires
        0 <= start,
        start + 7 < s1.len(),
        0 <= start + d,
        spec_parse_block(s1, start) matches Ok(bn) && {
            &&& bn.1 + d <= s2.len()
            &&& forall|k: int| start <= k < bn.1 ==> s1[k] == s2[k + d]
        },
    ensures
        spec_parse_block(s2, start + d) == spec_shift_block_result(
            spec_parse_block(s1, start),
            d,
        ),
{
    lemma_parse_block_next(s1, start);
    lemma_scan_ws_local(s1, s2, start, start + 7, d);
}

// ---------------------------------------------------------------------------
// The scanner state at a cut position, and restarting the scan there.
// ---------------------------------------------------------------------------

/// The scanner state `(cm, instr, esc)` when the top-level pass first
/// reaches a position at or past `p`.
pub open spec fn spec_state_at(
    s: Seq<char>,
    i: int,
    cm: bool,
    instr: bool,
    esc: bool,
    p: int,
) -> (bool, bool, bool)
    decreases s.len() - i,
    when 0 <= i <= s.len()
{
    if i >= p || i >= s.len() {
        (cm, instr, esc)
    } else if cm {
        spec_state_at(s, i + 1, s[i] != '\n', instr, esc, p)
    } else if instr {
        if esc {
            spec_state_at(s, i + 1, cm, instr, false, p)
        } else if s[i] == '\\' {
            spec_state_at(s, i + 1, cm, instr, true, p)
        } else if s[i] == '"' {
            spec_state_at(s, i + 1, cm, false, esc, p)
        } else {
            spec_state_at(s, i + 1, cm, instr, esc, p)
        }
    } else if s[i] == '#' {
        spec_state_at(s, i + 1, true, instr, esc, p)
    } else if s[i] == '"' {
        spec_state_at(s, i + 1, cm, true, esc, p)
    } else if spec_is_profile_start(s, i) {
        proof {
            lemma_parse_block_next(s, i);
        }
        match spec_parse_block(s, i) {
            Ok(bn) => spec_state_at(s, bn.1, false, false, false, p),
            Err(e) => (cm, instr, esc),
        }
    } else {
        spec_state_at(s, i + 1, cm, instr, esc, p)
    }
}

/// The pass never leaves the escape flag set outside a string.
pub proof fn lemma_state_at_esc(s: Seq<char>, i: int, cm: bool, instr: bool, esc: bool, p: int)
    requires
        0 <= i <= s.len(),
        !instr ==> !esc,
    ensures
        !spec_state_at(s, i, cm, instr, esc, p).1 ==> !spec_state_at(s, i, cm, instr, esc, p).2,
    decreases s.len() - i,
{
    if i < p && i < s.len() {
        if cm {
            lemma_state_at_esc(s, i + 1, s[i] != '\n', instr, esc, p);
        } else if instr {
            if esc {
                lemma_state_at_esc(s, i + 1, cm, instr, false, p);
            } else if s[i] == '\\' {
                lemma_state_at_esc(s, i + 1, cm, instr, true, p);
            } else if s[i] == '"' {
                lemma_state_at_esc(s, i + 1, cm, false, esc, p);
            } else {
                lemma_state_at_esc(s, i + 1, cm, instr, esc, p);
            }
        } else if s[i] == '#' {
            lemma_state_at_esc(s, i + 1, true, instr, esc, p);
        } else if s[i] == '"' {
            lemma_state_at_esc(s, i + 1, cm, true, esc, p);
        } else if spec_is_profile_start(s, i) {
            lemma_parse_block_next(s, i);
            match spec_parse_block(s, i) {
                Ok(bn) => {
                    lemma_state_at_esc(s, bn.1, false, false, false, p);
                },
                Err(e) => {},
            }
        } else {
            lemma_state_at_esc(s, i + 1, cm, instr, esc, p);
        }
    }
}

/// How many blocks of an ordered block list start before `p`.
pub open spec fn spec_blocks_before(bs: Seq<GBlock>, p: int) -> int
    decreases bs.len(),
{
    if bs.len() > 0 && bs[0].start < p {
        1 + spec_blocks_before(bs.drop_first(), p)
    } else {
        0
    }
}

pub proof fn lemma_blocks_before_bounds(bs: Seq<GBlock>, p: int)
    ensures
        0 <= spec_blocks_before(bs, p) <= bs.len(),
    decreases bs.len(),
{
    if bs.len() > 0 && bs[0].start < p {
        lemma_blocks_before_bounds(bs.drop_first(), p);
    }
}

/// When the list splits at `idx` between blocks starting before `p` and
/// blocks starting at or past it, exactly `idx` blocks start before `p`.
pub proof fn lemma_blocks_before_split(bs: Seq<GBlock>, p: int, idx: int)
    requires
        0 <= idx <= bs.len(),
        forall|k: int| 0 <= k < idx ==> (#[trigger] bs[k]).start < p,
        forall|k: int| idx <= k < bs.len() ==> (#[trigger] bs[k]).start >= p,
    ensures
        spec_blocks_before(bs, p) == idx,
    decreases bs.len(),
{
    if idx == 0 {
    } else {
        assert(bs[0].start < p);
        let rest = bs.drop_first();
        assert(forall|k: int| 0 <= k < rest.len() ==> rest[k] == bs[k + 1]);
        lemma_blocks_before_split(rest, p, idx - 1);
    }
}

/// In an ordered block list, every earlier block ends at or before every
/// later block's start.
pub proof fn lemma_blocks_ordered_trans(bs: Seq<GBlock>, k: int, l: int)
    requires
        forall|j: int| 0 <= j < bs.len() ==> (#[trigger] bs[j]).start < bs[j].end,
        forall|j: int| 0 <= j < bs.len() - 1 ==> (#[trigger] bs[j]).end <= bs[j + 1].start,
        0 <= k < l < bs.len(),
    ensures
        bs[k].end <= bs[l].start,
    decreases l - k,
{
    if k + 1 < l {
        lemma_blocks_ordered_trans(bs, k + 1, l);
    }
}

/// When the text ends with a newline, the pass never ends inside a line
/// comment.
pub proof fn lemma_state_at_last_newline(s: Seq<char>, i: int, cm: bool, instr: bool, esc: bool)
    requires
        0 <= i < s.len(),
        s.last() == '\n',
    ensures
        !spec_state_at(s, i, cm, instr, esc, s.len() as int).0,
    decreases s.len() - i,
{
    let p = s.len() as int;
    if cm {
        assert(spec_state_at(s, i, cm, instr, esc, p) == spec_state_at(
            s,
            i + 1,
            s[i] != '\n',
            instr,
            esc,
            p,
        ));
        if i + 1 < s.len() {
            lemma_state_at_last_newline(s, i + 1, s[i] != '\n', instr, esc);
        } else {
            assert(s[i] == s.last());
            assert(spec_state_at(s, i + 1, s[i] != '\n', instr, esc, p) == (false, instr, esc));
        }
    } else if instr {
        if esc {
            assert(spec_state_at(s, i, cm, instr, esc, p) == spec_state_at(
                s,
                i + 1,
                cm,
                instr,
                false,
                p,
            ));
            if i + 1 < s.len() {
                lemma_state_at_last_newline(s, i + 1, cm, instr, false);
            }
        } else if s[i] == '\\' {
            assert(spec_state_at(s, i, cm, instr, esc, p) == spec_state_at(
                s,
                i + 1,
                cm,
                instr,
                true,
                p,
            ));
            if i + 1 < s.len() {
                lemma_state_at_last_newline(s, i + 1, cm, instr, true);
            }
        } else if s[i] == '"' {
            assert(spec_state_at(s, i, cm, instr, esc, p) == spec_state_at(
                s,
                i + 1,
                cm,
                false,
                esc,
                p,
            ));
            if i + 1 < s.len() {
                lemma_state_at_last_newline(s, i + 1, cm, false, esc);
            }
        } else {
            assert(spec_state_at(s, i, cm, instr, esc, p) == spec_state_at(
                s,
                i + 1,
                cm,
                instr,
                esc,
                p,
            ));
            if i + 1 < s.len() {
                lemma_state_at_last_newline(s, i + 1, cm, instr, esc);
            }
        }
    } else if s[i] == '#' {
        if i + 1 < s.len() {
            assert(spec_state_at(s, i, cm, instr, esc, p) == spec_state_at(
                s,
                i + 1,
                true,
                instr,
                esc,
                p,
            ));
            lemma_state_at_last_newline(s, i + 1, true, instr, esc);
        } else {
            assert(s[i] == s.last());
        }
    } else if s[i] == '"' {
        assert(spec_state_at(s, i, cm, instr, esc, p) == spec_state_at(
            s,
            i + 1,
            cm,
            true,
            esc,
            p,
        ));
        if i + 1 < s.len() {
            lemma_state_at_last_newline(s, i + 1, cm, true, esc);
        }
    } else if spec_is_profile_start(s, i) {
        lemma_parse_block_next(s, i);
        match spec_parse_block(s, i) {
            Ok(bn) => {
                assert(spec_state_at(s, i, cm, instr, esc, p) == spec_state_at(
                    s,
                    bn.1,
                    false,
                    false,
                    false,
                    p,
                ));
                if bn.1 < s.len() {
                    lemma_state_at_last_newline(s, bn.1, false, false, false);
                }
            },
            Err(e) => {
                assert(spec_state_at(s, i, cm, instr, esc, p) == (cm, instr, esc));
            },
        }
    } else {
        assert(spec_state_at(s, i, cm, instr, esc, p) == spec_state_at(
            s,
            i + 1,
            cm,
            instr,
            esc,
            p,
        ));
        if i + 1 < s.len() {
            lemma_state_at_last_newline(s, i + 1, cm, instr, esc);
        }
    }
}

/// Restarting the pass at a cut that no block straddles: the blocks before
/// the cut are a prefix of the result, and scanning from the cut in the
/// state reached there yields exactly the rest.
pub proof fn lemma_scan_restart(s: Seq<char>, i: int, cm: bool, instr: bool, esc: bool, p: int)
    requires
        0 <= i <= p <= s.len(),
        spec_scan_top(s, i, cm, instr, esc) matches Ok(bs) && forall|k: int|
            0 <= k < bs.len() ==> ((#[trigger] bs[k]).start < p ==> bs[k].end <= p),
    ensures
        spec_scan_top(s, i, cm, instr, esc) matches Ok(bs) && {
            let idx = spec_blocks_before(bs, p);
            let stp = spec_state_at(s, i, cm, instr, esc, p);
            &&& 0 <= idx <= bs.len()
            &&& forall|k: int| 0 <= k < idx ==> (#[trigger] bs[k]).end <= p
            &&& forall|k: int| idx <= k < bs.len() ==> (#[trigger] bs[k]).start >= p
            &&& spec_scan_top(s, p, stp.0, stp.1, stp.2) == Ok::<Seq<GBlock>, ParseIssue>(
                bs.skip(idx),
            )
        },
    decreases s.len() - i,
{
    let bs = spec_scan_top(s, i, cm, instr, esc)->Ok_0;
    if i >= p {
        lemma_scan_top_wf(s, i, cm, instr, esc);
        assert(spec_blocks_before(bs, p) == 0);
        assert(bs.skip(0) =~= bs);
    } else {
        assert(i < s.len());
        if cm {
            lemma_scan_restart(s, i + 1, s[i] != '\n', instr, esc, p);
        } else if instr {
            if esc {
                lemma_scan_restart(s, i + 1, cm, instr, false, p);
            } else if s[i] == '\\' {
                lemma_scan_restart(s, i + 1, cm, instr, true, p);
            } else if s[i] == '"' {
                lemma_scan_restart(s, i + 1, cm, false, esc, p);
            } else {
                lemma_scan_restart(s, i + 1, cm, instr, esc, p);
            }
        } else if s[i] == '#' {
            lemma_scan_restart(s, i + 1, true, instr, esc, p);
        } else if s[i] == '"' {
            lemma_scan_restart(s, i + 1, cm, true, esc, p);
        } else if spec_is_profile_start(s, i) {
            lemma_parse_block_next(s, i);
            match spec_parse_block(s, i) {
                Ok(bn) => {
                    match spec_scan_top(s, bn.1, false, false, false) {
                        Ok(rest) => {
                            assert(bs == seq![bn.0] + rest);
                            assert(bs[0] == bn.0);
                            assert(bn.0.start == i < p);
                            assert(bn.1 == bn.0.end <= p);
                            assert(forall|k: int| 0 <= k < rest.len() ==> rest[k] == bs[k + 1]);
                            lemma_scan_restart(s, bn.1, false, false, false, p);
                            let idx_rest = spec_blocks_before(rest, p);
                            assert(bs.drop_first() =~= rest);
                            assert(spec_blocks_before(bs, p) == 1 + idx_rest);
                            assert(bs.skip(1 + idx_rest) =~= rest.skip(idx_rest));
                            assert(spec_state_at(s, i, cm, instr, esc, p) == spec_state_at(
                                s,
                                bn.1,
                                false,
                                false,
                                false,
                                p,
                            ));
                        },
                        Err(e) => {
                            assert(false);
                        },
                    }
                },
                Err(e) => {
                    assert(false);
                },
            }
        } else {
            lemma_scan_restart(s, i + 1, cm, instr, esc, p);
        }
    }
}

/// Two texts agreeing before a cut that no block of the first straddles are
/// scanned in lockstep up to the cut: they reach it in the same state, and
/// the second text's result is the first's blocks before the cut followed
/// by whatever scanning the second text from the cut yields.
pub proof fn lemma_scan_lockstep(
    s1: Seq<char>,
    s2: Seq<char>,
    i: int,
    cm: bool,
    instr: bool,
    esc: bool,
    p: int,
)
    requires
        0 <= i <= p,
        p <= s1.len(),
        p <= s2.len(),
        forall|k: int| 0 <= k < p ==> s1[k] == s2[k],
        forall|j: int|
            p - 8 < j && j < p ==> spec_is_profile_start(s1, j) == spec_is_profile_start(s2, j),
        spec_scan_top(s1, i, cm, instr, esc) matches Ok(bs1) && forall|k: int|
            0 <= k < bs1.len() ==> ((#[trigger] bs1[k]).start < p ==> bs1[k].end <= p),
    ensures
        spec_state_at(s2, i, cm, instr, esc, p) == spec_state_at(s1, i, cm, instr, esc, p),
        spec_scan_top(s1, i, cm, instr, esc) matches Ok(bs1) && ({
            let idx = spec_blocks_before(bs1, p);
            let stp = spec_state_at(s1, i, cm, instr, esc, p);
            spec_scan_top(s2, i, cm, instr, esc) == (match spec_scan_top(
                s2,
                p,
                stp.0,
                stp.1,
                stp.2,
            ) {
                Ok(r2) => Ok::<Seq<GBlock>, ParseIssue>(bs1.take(idx) + r2),
                Err(e2) => Err::<Seq<GBlock>, ParseIssue>(e2),
            })
        }),
    decreases s1.len() - i,
{
    let bs1 = spec_scan_top(s1, i, cm, instr, esc)->Ok_0;
    if i >= p {
        lemma_scan_top_wf(s1, i, cm, instr, esc);
        assert(spec_blocks_before(bs1, p) == 0);
        assert(bs1.take(0) =~= Seq::<GBlock>::empty());
        match spec_scan_top(s2, p, cm, instr, esc) {
            Ok(r2) => {
                assert(bs1.take(0) + r2 =~= r2);
            },
            Err(e2) => {},
        }
    } else {
        assert(i < s1.len());
        assert(s1[i] == s2[i]);
        assert(spec_is_profile_start(s1, i) == spec_is_profile_start(s2, i)) by {
            if i + 8 <= p {
                if i + 7 < s1.len() {
                    assert(s1.subrange(i, i + 7) =~= s2.subrange(i, i + 7));
                    assert(s1[i + 7] == s2[i + 7]);
                    if i > 0 {
                        assert(s1[i - 1] == s2[i - 1]);
                    }
                }
                if i + 7 < s2.len() {
                    assert(s2.subrange(i, i + 7) =~= s1.subrange(i, i + 7));
                    assert(s2[i + 7] == s1[i + 7]);
                    if i > 0 {
                        assert(s2[i - 1] == s1[i - 1]);
                    }
                }
            }
        }
        if cm {
            lemma_scan_lockstep(s1, s2, i + 1, s1[i] != '\n', instr, esc, p);
        } else if instr {
            if esc {
                lemma_scan_lockstep(s1, s2, i + 1, cm, instr, false, p);
            } else if s1[i] == '\\' {
                lemma_scan_lockstep(s1, s2, i + 1, cm, instr, true, p);
            } else if s1[i] == '"' {
                lemma_scan_lockstep(s1, s2, i + 1, cm, false, esc, p);
            } else {
                lemma_scan_lockstep(s1, s2, i + 1, cm, instr, esc, p);
            }
        } else if s1[i] == '#' {
            lemma_scan_lockstep(s1, s2, i + 1, true, instr, esc, p);
        } else if s1[i] == '"' {
            lemma_scan_lockstep(s1, s2, i + 1, cm, true, esc, p);
        } else if spec_is_profile_start(s1, i) {
            lemma_parse_block_next(s1, i);
            match spec_parse_block(s1, i) {
                Ok(bn) => {
                    match spec_scan_top(s1, bn.1, false, false, false) {
                        Ok(rest) => {
                            assert(bs1 == seq![bn.0] + rest);
                            assert(bs1[0] == bn.0);
                            assert(bn.0.start == i < p);
                            assert(bn.1 == bn.0.end <= p);
                            assert(forall|k: int| 0 <= k < rest.len() ==> rest[k] == bs1[k + 1]);
                            lemma_parse_block_local(s1, s2, i, 0);
                            assert(spec_parse_block(s2, i) == Ok::<(GBlock, int), ParseIssue>(
                                (GBlock { name: bn.0.name, start: bn.0.start, end: bn.0.end }, bn.1),
                            ));
                            assert((GBlock { name: bn.0.name, start: bn.0.start, end: bn.0.end })
                                == bn.0);
                            lemma_scan_lockstep(s1, s2, bn.1, false, false, false, p);
                            let idx_rest = spec_blocks_before(rest, p);
                            assert(bs1.drop_first() =~= rest);
                            assert(spec_blocks_before(bs1, p) == 1 + idx_rest);
                            assert(spec_state_at(s1, i, cm, instr, esc, p) == spec_state_at(
                                s1,
                                bn.1,
                                false,
                                false,
                                false,
                                p,
                            ));
                            assert(spec_state_at(s2, i, cm, instr, esc, p) == spec_state_at(
                                s2,
                                bn.1,
                                false,
                                false,
                                false,
                                p,
                            ));
                            let stp = spec_state_at(s1, i, cm, instr, esc, p);
                            match spec_scan_top(s2, p, stp.0, stp.1, stp.2) {
                                Ok(r2) => {
                                    lemma_blocks_before_bounds(rest, p);
                                    assert(bs1.take(1 + idx_rest) =~= seq![bn.0] + rest.take(
                                        idx_rest,
                                    ));
                                    assert(seq![bn.0] + (rest.take(idx_rest) + r2) =~= bs1.take(
                                        1 + idx_rest,
                                    ) + r2);
                                },
                                Err(e2) => {},
                            }
                        },
                        Err(e) => {
                            assert(false);
                        },
                    }
                },
                Err(e) => {
                    assert(false);
                },
            }
        } else {
            lemma_scan_lockstep(s1, s2, i + 1, cm, instr, esc, p);
        }
    }
}

/// The description carried by a `ConfigParse` failure for each scan issue.
pub open spec fn spec_parse_issue_message(e: ParseIssue) -> Seq<char> {
    match e {
        ParseIssue::MissingBrace { at } => "profile block starting at character "@ + spec_udec(at)
            + " has no opening brace"@,
        ParseIssue::EmptyName { at } => "profile block starting at character "@ + spec_udec(at)
            + " has an empty profile name"@,
        ParseIssue::Unclosed { name } => "profile `"@ + name + "` has an unclosed block"@,
    }
}

/// Whether the executable error is the one a given scan issue demands.
pub open spec fn spec_is_parse_error_for(err: GenerateError, e: ParseIssue) -> bool {
    err matches GenerateError::ConfigParse { details } && details@ == spec_parse_issue_message(e)
}

fn missing_brace_error(at: usize) -> (r: GenerateError)
    ensures
        spec_is_parse_error_for(r, ParseIssue::MissingBrace { at: at as int }),
{
    let mut m: Vec<char> = Vec::new();
    push_str_chars(&mut m, "profile block starting at character ");
    push_u64_dec(&mut m, at as u64);
    push_str_chars(&mut m, " has no opening brace");
    GenerateError::ConfigParse { details: chars_to_string(&m) }
}

fn empty_name_error(at: usize) -> (r: GenerateError)
    ensures
        spec_is_parse_error_for(r, ParseIssue::EmptyName { at: at as int }),
{
    let mut m: Vec<char> = Vec::new();
    push_str_chars(&mut m, "profile block starting at character ");
    push_u64_dec(&mut m, at as u64);
    push_str_chars(&mut m, " has an empty profile name");
    GenerateError::ConfigParse { details: chars_to_string(&m) }
}

fn unclosed_error(name: &Vec<char>) -> (r: GenerateError)
    ensures
        spec_is_parse_error_for(r, ParseIssue::Unclosed { name: name@ }),
{
    let mut m: Vec<char> = Vec::new();
    push_str_chars(&mut m, "profile `");
    let mut i: usize = 0;
    while i < name.len()
        invariant
            0 <= i <= name.len(),
            m@ == "profile `"@ + name@.subrange(0, i as int),
        decreases name.len() - i,
    {
        m.push(name[i]);
        i = i + 1;
        assert(m@ =~= "profile `"@ + name@.subrange(0, i as int));
    }
    assert(name@.subrange(0, name@.len() as int) =~= name@);
    push_str_chars(&mut m, "` has an unclosed block");
    GenerateError::ConfigParse { details: chars_to_string(&m) }
}

/// Whether the keyword occupies `[index, index + 7)` of `chars`.
fn keyword_at(chars: &Vec<char>, index: usize) -> (r: bool)
    requires
        index + 7 <= chars.len(),
    ensures
        r == (chars@.subrange(index as int, index as int + 7) == spec_keyword()),
{
    let r = chars[index] == 'p' && chars[index + 1] == 'r' && chars[index + 2] == 'o' && chars[index
        + 3] == 'f' && chars[index + 4] == 'i' && chars[index + 5] == 'l' && chars[index + 6]
        == 'e';
    proof {
        let sub = chars@.subrange(index as int, index as int + 7);
        assert(sub[0] == chars@[index as int]);
        assert(sub[1] == chars@[index as int + 1]);
        assert(sub[2] == chars@[index as int + 2]);
        assert(sub[3] == chars@[index as int + 3]);
        assert(sub[4] == chars@[index as int + 4]);
        assert(sub[5] == chars@[index as int + 5]);
        assert(sub[6] == chars@[index as int + 6]);
        if r {
            assert(sub =~= spec_keyword());
        } else {
            assert(spec_keyword()[0] == 'p');
            assert(spec_keyword()[1] == 'r');
            assert(spec_keyword()[2] == 'o');
            assert(spec_keyword()[3] == 'f');
            assert(spec_keyword()[4] == 'i');
            assert(spec_keyword()[5] == 'l');
            assert(spec_keyword()[6] == 'e');
        }
    }
    r
}

/// Decides whether a candidate block starts at `index`.
pub fn is_profile_start(chars: &Vec<char>, index: usize) -> (r: bool)
    ensures
        r == spec_is_profile_start(chars@, index as int),
{
    if chars.len() < 8 || index > chars.len() - 8 {
        return false;
    }
    let keyword_ok = keyword_at(chars, index);
    if !keyword_ok {
        return false;
    }
    let before_ok = index == 0 || !is_identifier_char(chars[index - 1]);
    let after_ok = is_ascii_space(chars[index + 7]);
    before_ok && after_ok
}

/// Parses one block whose keyword starts at `start`, returning the block and
/// the offset scanning should resume at.
fn parse_profile_block(chars: &Vec<char>, start: usize) -> (r: Result<
    (ProfileBlock, usize),
    GenerateError,
>)
    requires
        spec_is_profile_start(chars@, start as int),
    ensures
        match spec_parse_block(chars@, start as int) {
            Ok(bn) => {
                &&& r matches Ok(pn)
                &&& pn.0@ == bn.0
                &&& pn.1 as int == bn.1
                &&& start < pn.1 <= chars@.len()
            },
            Err(e) => r matches Err(err) && spec_is_parse_error_for(err, e),
        },
{
    let len: usize = chars.len();
    let ghost s = chars@;
    let mut j: usize = start + 7;
    while j < len && is_ascii_space(chars[j])
        invariant
            start + 7 <= j <= len,
            len == chars.len(),
            s == chars@,
            spec_parse_block(s, start as int) == spec_scan_ws(s, start as int, j as int),
        decreases len - j,
    {
        proof {
            assert(spec_scan_ws(s, start as int, j as int) == spec_scan_ws(
                s,
                start as int,
                j as int + 1,
            ));
        }
        j = j + 1;
    }
    assert(spec_parse_block(s, start as int) == spec_scan_name(
        s,
        start as int,
        j as int,
        j as int,
        false,
        false,
        false,
    ));
    let name_start: usize = j;
    let mut cm = false;
    let mut instr = false;
    let mut esc = false;
    loop
        invariant
            start + 7 <= name_start <= j <= len,
            len == chars.len(),
            s == chars@,
            spec_parse_block(s, start as int) == spec_scan_name(
                s,
                start as int,
                name_start as int,
                j as int,
                cm,
                instr,
                esc,
            ),
        decreases len - j,
    {
        if j >= len {
            return Err(missing_brace_error(start));
        }
        let c = chars[j];
        let ghost oj = j as int;
        let ghost ocm = cm;
        let ghost oinstr = instr;
        let ghost oesc = esc;
        if cm {
            if c == '\n' {
                cm = false;
            }
            j = j + 1;
        } else if instr {
            if esc {
                esc = false;
            } else if c == '\\' {
                esc = true;
            } else if c == '"' {
                instr = false;
            }
            j = j + 1;
        } else if c == '#' {
            cm = true;
            j = j + 1;
        } else if c == '"' {
            instr = true;
            j = j + 1;
        } else if c == '{' {
            let raw = subvec(chars, name_start, j);
            let name = trim_chars(&raw);
            if name.len() == 0 {
                return Err(empty_name_error(start));
            }
            proof {
                assert(spec_scan_name(
                    s,
                    start as int,
                    name_start as int,
                    j as int,
                    cm,
                    instr,
                    esc,
                ) == spec_scan_body(s, start as int, name@, 1, j as int + 1, false, false, false));
            }
            // body extraction
            let mut depth: usize = 1;
            let mut k: usize = j + 1;
            let mut bcm = false;
            let mut binstr = false;
            let mut besc = false;
            loop
                invariant
                    start + 7 <= j < len,
                    j + 1 <= k <= len,
                    len == chars.len(),
                    s == chars@,
                    1 <= depth <= k,
                    spec_parse_block(s, start as int) == spec_scan_body(
                        s,
                        start as int,
                        name@,
                        depth as int,
                        k as int,
                        bcm,
                        binstr,
                        besc,
                    ),
                decreases len - k,
            {
                if k >= len {
                    return Err(unclosed_error(&name));
                }
                let bc = chars[k];
                let ghost ok = k as int;
                let ghost odepth = depth as int;
                let ghost obcm = bcm;
                let ghost obinstr = binstr;
                let ghost obesc = besc;
                if bcm {
                    if bc == '\n' {
                        bcm = false;
                    }
                    k = k + 1;
                } else if binstr {
                    if besc {
                        besc = false;
                    } else if bc == '\\' {
                        besc = true;
                    } else if bc == '"' {
                        binstr = false;
                    }
                    k = k + 1;
                } else if bc == '#' {
                    bcm = true;
                    k = k + 1;
                } else if bc == '"' {
                    binstr = true;
                    k = k + 1;
                } else if bc == '{' {
                    depth = depth + 1;
                    k = k + 1;
                } else if bc == '}' {
                    if depth == 1 {
                        proof {
                            assert(spec_scan_body(
                                s,
                                start as int,
                                name@,
                                1,
                                ok,
                                obcm,
                                obinstr,
                                obesc,
                            ) == Ok::<(GBlock, int), ParseIssue>(
                                (GBlock { name: name@, start: start as int, end: ok + 1 }, ok + 1),
                            ));
                        }
                        k = k + 1;
                        let block = ProfileBlock { name, start, end: k };
                        return Ok((block, k));
                    }
                    depth = depth - 1;
                    k = k + 1;
                } else {
                    k = k + 1;
                }
                proof {
                    assert(spec_scan_body(s, start as int, name@, odepth, ok, obcm, obinstr, obesc)
                        == spec_scan_body(
                        s,
                        start as int,
                        name@,
                        depth as int,
                        k as int,
                        bcm,
                        binstr,
                        besc,
                    ));
                }
            }
        } else {
            j = j + 1;
        }
        proof {
            assert(spec_scan_name(s, start as int, name_start as int, oj, ocm, oinstr, oesc)
                == spec_scan_name(s, start as int, name_start as int, j as int, cm, instr, esc));
        }
    }
}

/// Locates every top-level `profile` block of the text, in order of
/// appearance, or reports the first malformed block.
pub fn parse_profile_blocks(chars: &Vec<char>) -> (r: Result<Vec<ProfileBlock>, GenerateError>)
    ensures
        match spec_parse_profile_blocks(chars@) {
            Ok(bs) => r matches Ok(v) && spec_blocks_view(v@) == bs,
            Err(e) => r matches Err(err) && spec_is_parse_error_for(err, e),
        },
{
    let len: usize = chars.len();
    let ghost s = chars@;
    let mut blocks: Vec<ProfileBlock> = Vec::new();
    let mut i: usize = 0;
    let mut cm = false;
    let mut instr = false;
    let mut esc = false;
    loop
        invariant
            0 <= i <= len,
            len == chars.len(),
            s == chars@,
            !instr ==> !esc,
            spec_parse_profile_blocks(s) == (match spec_scan_top(s, i as int, cm, instr, esc) {
                Ok(rest) => Ok::<Seq<GBlock>, ParseIssue>(spec_blocks_view(blocks@) + rest),
                Err(e) => Err(e),
            }),
        decreases len - i,
    {
        if i >= len {
            assert(spec_blocks_view(blocks@) + Seq::<GBlock>::empty() =~= spec_blocks_view(
                blocks@,
            ));
            return Ok(blocks);
        }
        let c = chars[i];
        let ghost oi = i as int;
        let ghost ocm = cm;
        let ghost oinstr = instr;
        let ghost oesc = esc;
        if cm {
            if c == '\n' {
                cm = false;
            }
            i = i + 1;
        } else if instr {
            if esc {
                esc = false;
            } else if c == '\\' {
                esc = true;
            } else if c == '"' {
                instr = false;
            }
            i = i + 1;
        } else if c == '#' {
            cm = true;
            i = i + 1;
        } else if c == '"' {
            instr = true;
            i = i + 1;
        } else if is_profile_start(chars, i) {
            proof {
                lemma_parse_block_next(s, i as int);
            }
            match parse_profile_block(chars, i) {
                Ok(pn) => {
                    let (block, next) = pn;
                    let ghost old_blocks = blocks@;
                    blocks.push(block);
                    proof {
                        assert(spec_blocks_view(blocks@) =~= spec_blocks_view(old_blocks).push(
                            block@,
                        ));
                        assert(spec_scan_top(s, oi, ocm, oinstr, oesc) == (match spec_scan_top(
                            s,
                            next as int,
                            false,
                            false,
                            false,
                        ) {
                            Ok(rest) => Ok::<Seq<GBlock>, ParseIssue>(seq![block@] + rest),
                            Err(e) => Err(e),
                        }));
                        match spec_scan_top(s, next as int, false, false, false) {
                            Ok(rest) => {
                                assert(spec_blocks_view(old_blocks) + (seq![block@] + rest)
                                    =~= spec_blocks_view(blocks@) + rest);
                            },
                            Err(e) => {},
                        }
                    }
                    i = next;
                    cm = false;
                    instr = false;
                    esc = false;
                    continue;
                },
                Err(err) => {
                    proof {
                        assert(spec_scan_top(s, oi, ocm, oinstr, oesc) matches Err(e)
                            && spec_is_parse_error_for(err, e));
                    }
                    return Err(err);
                },
            }
        } else {
            i = i + 1;
        }
        proof {
            assert(spec_scan_top(s, oi, ocm, oinstr, oesc) == spec_scan_top(
                s,
                i as int,
                cm,
                instr,
                esc,
            ));
        }
    }
}

} // verus!
