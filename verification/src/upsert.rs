//! The upsert engine: given a configuration text, a target profile name and
//! a replacement block text, replace the uniquely named block, append a new
//! one, or fail — never guessing among ambiguous matches.

use vstd::prelude::*;
use crate::errors::GenerateError;
use crate::scan::{
    lemma_scan_top_wf,
    parse_profile_blocks,
    spec_blocks_view,
    spec_is_parse_error_for,
    spec_parse_profile_blocks,
    GBlock,
    ParseIssue,
    ProfileBlock,
};
use crate::text::{
    char_vecs_equal,
    chars_to_string,
    push_all,
    push_range,
    spec_trim,
    str_to_chars,
    trimmed_is_empty,
};

verus! {

/// `b` terminated by exactly one more newline if it lacks one.
pub open spec fn spec_ensure_newline(b: Seq<char>) -> Seq<char> {
    if b.len() > 0 && b.last() == '\n' {
        b
    } else {
        b.push('\n')
    }
}

/// The separator placed between an existing non-empty text and an appended
/// block: nothing after a blank line, one newline after a terminated line,
/// two otherwise.
pub open spec fn spec_append_separator(config: Seq<char>) -> Seq<char> {
    if config.len() >= 2 && config[config.len() - 1] == '\n' && config[config.len() - 2] == '\n' {
        Seq::empty()
    } else if config.len() >= 1 && config.last() == '\n' {
        seq!['\n']
    } else {
        seq!['\n', '\n']
    }
}

/// Appending a block to a configuration text, with exactly one blank line of
/// separation when the text is non-empty.
pub open spec fn spec_append_profile(config: Seq<char>, block: Seq<char>) -> Seq<char> {
    if config.len() == 0 {
        block
    } else {
        config + spec_append_separator(config) + block
    }
}

/// How many of the blocks from index `i` on carry exactly the name `name`.
pub open spec fn spec_count_matches_from(bs: Seq<GBlock>, name: Seq<char>, i: int) -> int
    decreases bs.len() - i,
    when 0 <= i <= bs.len()
{
    if i >= bs.len() {
        0
    } else {
        (if bs[i].name == name {
            1int
        } else {
            0int
        }) + spec_count_matches_from(bs, name, i + 1)
    }
}

/// How many blocks carry exactly the name `name`.
pub open spec fn spec_count_matches(bs: Seq<GBlock>, name: Seq<char>) -> int {
    spec_count_matches_from(bs, name, 0)
}

/// The index of the first block from `i` on named `name`, or `bs.len()`.
pub open spec fn spec_first_match_from(bs: Seq<GBlock>, name: Seq<char>, i: int) -> int
    decreases bs.len() - i,
    when 0 <= i <= bs.len()
{
    if i >= bs.len() {
        bs.len() as int
    } else if bs[i].name == name {
        i
    } else {
        spec_first_match_from(bs, name, i + 1)
    }
}

pub proof fn lemma_count_matches_from_nonneg(bs: Seq<GBlock>, name: Seq<char>, i: int)
    requires
        0 <= i <= bs.len(),
    ensures
        0 <= spec_count_matches_from(bs, name, i) <= bs.len() - i,
    decreases bs.len() - i,
{
    if i < bs.len() {
        lemma_count_matches_from_nonneg(bs, name, i + 1);
    }
}

pub proof fn lemma_first_match_from_wf(bs: Seq<GBlock>, name: Seq<char>, i: int)
    requires
        0 <= i <= bs.len(),
    ensures
        i <= spec_first_match_from(bs, name, i) <= bs.len(),
        spec_count_matches_from(bs, name, i) > 0 ==> spec_first_match_from(bs, name, i) < bs.len()
            && bs[spec_first_match_from(bs, name, i)].name == name,
        forall|k: int|
            i <= k < spec_first_match_from(bs, name, i) ==> (#[trigger] bs[k]).name != name,
    decreases bs.len() - i,
{
    if i < bs.len() && bs[i].name != name {
        lemma_first_match_from_wf(bs, name, i + 1);
    }
}

/// Skipping non-matching blocks leaves the count unchanged.
pub proof fn lemma_count_from_skip_no_match(bs: Seq<GBlock>, name: Seq<char>, i: int, j: int)
    requires
        0 <= i <= j <= bs.len(),
        forall|k: int| i <= k < j ==> (#[trigger] bs[k]).name != name,
    ensures
        spec_count_matches_from(bs, name, i) == spec_count_matches_from(bs, name, j),
    decreases j - i,
{
    if i < j {
        lemma_count_from_skip_no_match(bs, name, i + 1, j);
    }
}

/// A zero count from `i` on means no block from `i` on matches.
pub proof fn lemma_count_zero_no_match(bs: Seq<GBlock>, name: Seq<char>, i: int)
    requires
        0 <= i <= bs.len(),
        spec_count_matches_from(bs, name, i) == 0,
    ensures
        forall|k: int| i <= k < bs.len() ==> (#[trigger] bs[k]).name != name,
    decreases bs.len() - i,
{
    if i < bs.len() {
        lemma_count_matches_from_nonneg(bs, name, i + 1);
        lemma_count_zero_no_match(bs, name, i + 1);
    }
}

/// A list with exactly one matching block, at `idx`, counts one match and
/// finds it first.
pub proof fn lemma_single_match(bs: Seq<GBlock>, name: Seq<char>, idx: int, i: int)
    requires
        0 <= i <= bs.len(),
        0 <= idx < bs.len(),
        bs[idx].name == name,
        forall|k: int| 0 <= k < bs.len() && k != idx ==> (#[trigger] bs[k]).name != name,
    ensures
        spec_count_matches_from(bs, name, i) == if i <= idx {
            1int
        } else {
            0int
        },
        i <= idx ==> spec_first_match_from(bs, name, i) == idx,
    decreases bs.len() - i,
{
    if i < bs.len() {
        lemma_single_match(bs, name, idx, i + 1);
    }
}

/// The ways an upsert can fail.
pub ghost enum UpsertIssue {
    /// The target name was blank.
    EmptyName,
    /// The configuration text did not scan.
    Parse { issue: ParseIssue },
    /// More than one block carries the target name.
    Duplicate { name: Seq<char>, count: int },
}

/// The whole upsert operation on a configuration text: reject a blank
/// target name, locate the blocks, reject ambiguity, then replace the
/// unique match or append, and terminate the result with exactly one
/// newline.
pub open spec fn spec_upsert(config: Seq<char>, name: Seq<char>, block: Seq<char>) -> Result<
    Seq<char>,
    UpsertIssue,
> {
    if spec_trim(name).len() == 0 {
        Err(UpsertIssue::EmptyName)
    } else {
        match spec_parse_profile_blocks(config) {
            Err(p) => Err(UpsertIssue::Parse { issue: p }),
            Ok(bs) => {
                let n = spec_count_matches(bs, name);
                if n > 1 {
                    Err(UpsertIssue::Duplicate { name, count: n })
                } else {
                    let canon = spec_ensure_newline(block);
                    let merged = if n == 0 {
                        spec_append_profile(config, canon)
                    } else {
                        let t = bs[spec_first_match_from(bs, name, 0)];
                        let suffix = config.subrange(t.end, config.len() as int);
                        let repl = if suffix.len() > 0 && suffix[0] == '\n' && canon.len() > 0
                            && canon.last() == '\n' {
                            canon.drop_last()
                        } else {
                            canon
                        };
                        config.subrange(0, t.start) + repl + suffix
                    };
                    Ok(spec_ensure_newline(merged))
                }
            },
        }
    }
}

/// Appends `block` to `config` with exactly one blank line of separation,
/// leaving `config` itself untouched at the front of the result.
fn append_chars(config: &Vec<char>, block: &Vec<char>) -> (r: Vec<char>)
    ensures
        r@ == spec_append_profile(config@, block@),
{
    let mut out: Vec<char> = Vec::new();
    if config.len() == 0 {
        push_all(&mut out, block);
        assert(out@ =~= spec_append_profile(config@, block@));
        return out;
    }
    push_all(&mut out, config);
    let len = config.len();
    if len >= 2 && config[len - 1] == '\n' && config[len - 2] == '\n' {
        // a blank separator line is already present
    } else if config[len - 1] == '\n' {
        out.push('\n');
    } else {
        out.push('\n');
        out.push('\n');
    }
    assert(out@ =~= config@ + spec_append_separator(config@));
    push_all(&mut out, block);
    assert(out@ =~= spec_append_profile(config@, block@));
    out
}

/// Appends `profile_block` to `config` with exactly one blank line of
/// separation; an empty `config` yields exactly the block.
pub fn append_profile(config: &str, profile_block: &str) -> (r: String)
    ensures
        r@ == spec_append_profile(config@, profile_block@),
{
    let config_chars = str_to_chars(config);
    let block_chars = str_to_chars(profile_block);
    let out = append_chars(&config_chars, &block_chars);
    chars_to_string(&out)
}

/// Replaces the block named `profile_name` in `config` with
/// `new_profile_block`, appends the block if no block carries that name, and
/// fails on a blank name, a scan issue, or an ambiguous name. The result
/// always ends in exactly one newline; the text is otherwise untouched
/// outside the replaced range.
pub fn upsert_profile_in_config(config: &str, profile_name: &str, new_profile_block: &str) -> (r:
    Result<String, GenerateError>)
    ensures
        match spec_upsert(config@, profile_name@, new_profile_block@) {
            Ok(m) => r matches Ok(out) && out@ == m,
            Err(UpsertIssue::EmptyName) => r matches Err(GenerateError::EmptyProfileName),
            Err(UpsertIssue::Parse { issue }) => r matches Err(err) && spec_is_parse_error_for(
                err,
                issue,
            ),
            Err(UpsertIssue::Duplicate { name, count }) => r matches Err(
                GenerateError::DuplicateProfileName { profile_name: pn, count: c },
            ) && pn@ == name && c as int == count,
        },
{
    let name_chars = str_to_chars(profile_name);
    if trimmed_is_empty(&name_chars) {
        return Err(GenerateError::EmptyProfileName);
    }
    let config_chars = str_to_chars(config);
    let ghost s = config_chars@;
    let blocks: Vec<ProfileBlock> = match parse_profile_blocks(&config_chars) {
        Ok(bs) => bs,
        Err(err) => {
            return Err(err);
        },
    };
    let ghost bs = spec_blocks_view(blocks@);
    proof {
        lemma_scan_top_wf(s, 0, false, false, false);
        lemma_count_matches_from_nonneg(bs, name_chars@, 0);
        lemma_first_match_from_wf(bs, name_chars@, 0);
    }
    // count the blocks whose name equals the target exactly
    let mut match_count: usize = 0;
    let mut first_idx: usize = 0;
    let mut i: usize = 0;
    while i < blocks.len()
        invariant
            0 <= i <= blocks.len(),
            bs == spec_blocks_view(blocks@),
            bs.len() == blocks.len(),
            spec_count_matches(bs, name_chars@) == match_count + spec_count_matches_from(
                bs,
                name_chars@,
                i as int,
            ),
            match_count <= i,
            match_count > 0 ==> first_idx < i && spec_first_match_from(bs, name_chars@, 0)
                == first_idx as int,
            match_count == 0 ==> spec_first_match_from(bs, name_chars@, 0)
                == spec_first_match_from(bs, name_chars@, i as int),
        decreases blocks.len() - i,
    {
        let ghost oi = i as int;
        assert(bs[oi] == blocks@[oi]@);
        if char_vecs_equal(&blocks[i].name, &name_chars) {
            if match_count == 0 {
                first_idx = i;
            }
            match_count = match_count + 1;
        }
        i = i + 1;
        proof {
            assert(spec_count_matches_from(bs, name_chars@, oi) == (if bs[oi].name == name_chars@ {
                1int
            } else {
                0int
            }) + spec_count_matches_from(bs, name_chars@, oi + 1));
            assert(spec_first_match_from(bs, name_chars@, oi) == (if bs[oi].name == name_chars@ {
                oi
            } else {
                spec_first_match_from(bs, name_chars@, oi + 1)
            }));
        }
    }
    assert(spec_count_matches_from(bs, name_chars@, i as int) == 0);
    assert(spec_count_matches(bs, name_chars@) == match_count);
    if match_count > 1 {
        return Err(
            GenerateError::DuplicateProfileName {
                profile_name: profile_name.to_owned(),
                count: match_count,
            },
        );
    }
    // normalise the new block to end with exactly one newline
    let mut canon = str_to_chars(new_profile_block);
    if canon.len() == 0 || canon[canon.len() - 1] != '\n' {
        canon.push('\n');
    }
    assert(canon@ == spec_ensure_newline(new_profile_block@));
    let mut merged: Vec<char>;
    if match_count == 0 {
        merged = append_chars(&config_chars, &canon);
    } else {
        assert(spec_first_match_from(bs, name_chars@, 0) == first_idx as int);
        assert(bs[first_idx as int] == blocks@[first_idx as int]@);
        let t_start = blocks[first_idx].start;
        let t_end = blocks[first_idx].end;
        assert(0 <= t_start < t_end <= s.len());
        let strip = t_end < config_chars.len() && config_chars[t_end] == '\n' && canon[canon.len()
            - 1] == '\n';
        proof {
            let suffix = s.subrange(t_end as int, s.len() as int);
            if t_end < config_chars.len() {
                assert(suffix[0] == s[t_end as int]);
            }
            assert(strip == (suffix.len() > 0 && suffix[0] == '\n' && canon@.len() > 0
                && canon@.last() == '\n'));
        }
        let mut out: Vec<char> = Vec::new();
        push_range(&mut out, &config_chars, 0, t_start);
        if strip {
            push_range(&mut out, &canon, 0, canon.len() - 1);
            assert(canon@.subrange(0, canon@.len() - 1) =~= canon@.drop_last());
        } else {
            push_all(&mut out, &canon);
        }
        push_range(&mut out, &config_chars, t_end, config_chars.len());
        merged = out;
    }
    // the merged text ends with exactly one trailing newline
    if merged.len() == 0 || merged[merged.len() - 1] != '\n' {
        merged.push('\n');
    }
    assert(match spec_upsert(config@, profile_name@, new_profile_block@) {
        Ok(m) => merged@ == m,
        Err(e) => false,
    });
    Ok(chars_to_string(&merged))
}

} // verus!
