//! Laws of the upsert engine and the scanner, stated and proved over the
//! same specifications the executable functions are verified against.

use vstd::prelude::*;
use crate::scan::{
    lemma_blocks_before_split,
    lemma_blocks_ordered_trans,
    lemma_parse_block_local,
    lemma_parse_block_next,
    lemma_scan_lockstep,
    lemma_scan_restart,
    lemma_scan_top_decompose,
    lemma_scan_top_translate,
    lemma_scan_top_wf,
    lemma_scan_ws_next,
    lemma_state_at_esc,
    lemma_state_at_last_newline,
    spec_blocks_before,
    spec_is_profile_start,
    spec_keyword,
    spec_parse_block,
    spec_parse_profile_blocks,
    spec_scan_top,
    spec_shift_blocks,
    spec_shift_issue,
    spec_state_at,
    GBlock,
    ParseIssue,
};
use crate::text::spec_trim;
use crate::upsert::{
    lemma_count_from_skip_no_match,
    lemma_count_matches_from_nonneg,
    lemma_count_zero_no_match,
    lemma_first_match_from_wf,
    lemma_single_match,
    spec_append_profile,
    spec_append_separator,
    spec_count_matches,
    spec_count_matches_from,
    spec_ensure_newline,
    spec_first_match_from,
    spec_upsert,
    UpsertIssue,
};

verus! {

/// A name that matches no block counts no matches.
pub proof fn lemma_no_match_count_zero(bs: Seq<GBlock>, name: Seq<char>, i: int)
    requires
        0 <= i <= bs.len(),
        forall|k: int| i <= k < bs.len() ==> (#[trigger] bs[k]).name != name,
    ensures
        spec_count_matches_from(bs, name, i) == 0,
    decreases bs.len() - i,
{
    if i < bs.len() {
        lemma_no_match_count_zero(bs, name, i + 1);
    }
}

/// Law: whenever an upsert succeeds, the merged text ends in a newline.
pub proof fn lemma_upsert_ends_in_newline(config: Seq<char>, name: Seq<char>, block: Seq<char>)
    requires
        spec_upsert(config, name, block) is Ok,
    ensures
        spec_upsert(config, name, block)->Ok_0.len() > 0,
        spec_upsert(config, name, block)->Ok_0.last() == '\n',
{
}

/// Law: appending a block text that lacks a trailing newline still yields
/// a merged text that ends in exactly one newline.
pub proof fn lemma_append_without_trailing_newline(
    config: Seq<char>,
    name: Seq<char>,
    block: Seq<char>,
)
    requires
        spec_trim(name).len() > 0,
        spec_parse_profile_blocks(config) matches Ok(bs) && spec_count_matches(bs, name) == 0,
        block.len() > 0,
        block.last() != '\n',
    ensures
        spec_upsert(config, name, block) matches Ok(m) && {
            &&& m.len() > 0
            &&& m.last() == '\n'
            &&& m.len() >= 2 ==> m[m.len() - 2] != '\n'
        },
{
    let canon = spec_ensure_newline(block);
    assert(canon == block.push('\n'));
    assert(canon.len() >= 2);
    assert(canon[canon.len() - 2] == block.last());
    let merged = spec_append_profile(config, canon);
    if config.len() == 0 {
        assert(merged == canon);
    } else {
        assert(merged[merged.len() - 1] == canon[canon.len() - 1]);
        assert(merged[merged.len() - 2] == canon[canon.len() - 2]);
    }
    assert(merged.last() == '\n');
    assert(spec_ensure_newline(merged) == merged);
}

/// Law: appending to a text that already ends in a blank line inserts no
/// further separator: the result is the text followed directly by the
/// normalised block.
pub proof fn lemma_append_after_blank_line(config: Seq<char>, name: Seq<char>, block: Seq<char>)
    requires
        spec_trim(name).len() > 0,
        spec_parse_profile_blocks(config) matches Ok(bs) && spec_count_matches(bs, name) == 0,
        config.len() >= 2,
        config[config.len() - 1] == '\n',
        config[config.len() - 2] == '\n',
    ensures
        spec_upsert(config, name, block) == Ok::<Seq<char>, UpsertIssue>(
            config + spec_ensure_newline(block),
        ),
{
    let canon = spec_ensure_newline(block);
    let merged = spec_append_profile(config, canon);
    assert(merged =~= config + canon);
    assert(canon.len() > 0 && canon.last() == '\n');
    assert(merged.last() == '\n');
    assert(spec_ensure_newline(merged) == merged);
}

/// Law: a target name carried by no block leads to an append, never to a
/// replacement — in particular a name that only prefixes a block's name
/// does not match it.
pub proof fn lemma_unmatched_name_appends(config: Seq<char>, name: Seq<char>, block: Seq<char>)
    requires
        spec_trim(name).len() > 0,
        spec_parse_profile_blocks(config) matches Ok(bs) && forall|k: int|
            0 <= k < bs.len() ==> (#[trigger] bs[k]).name != name,
    ensures
        spec_upsert(config, name, block) == Ok::<Seq<char>, UpsertIssue>(
            spec_ensure_newline(spec_append_profile(config, spec_ensure_newline(block))),
        ),
{
    let bs = spec_parse_profile_blocks(config)->Ok_0;
    lemma_no_match_count_zero(bs, name, 0);
}

/// Law: a scan issue — an unclosed block, a missing opening brace, a blank
/// block name — aborts the upsert with exactly that issue, so no merged
/// text is ever produced from a malformed configuration.
pub proof fn lemma_scan_issue_propagates(config: Seq<char>, name: Seq<char>, block: Seq<char>)
    requires
        spec_trim(name).len() > 0,
        spec_parse_profile_blocks(config) is Err,
    ensures
        spec_upsert(config, name, block) == Err::<Seq<char>, UpsertIssue>(
            UpsertIssue::Parse { issue: spec_parse_profile_blocks(config)->Err_0 },
        ),
{
}

/// Law: when two or more blocks carry the target name, the upsert fails
/// with that name and the exact count, and produces no merged text.
pub proof fn lemma_duplicate_names_rejected(config: Seq<char>, name: Seq<char>, block: Seq<char>)
    requires
        spec_trim(name).len() > 0,
        spec_parse_profile_blocks(config) matches Ok(bs) && spec_count_matches(bs, name) >= 2,
    ensures
        spec_upsert(config, name, block) == Err::<Seq<char>, UpsertIssue>(
            UpsertIssue::Duplicate {
                name,
                count: spec_count_matches(spec_parse_profile_blocks(config)->Ok_0, name),
            },
        ),
{
}

/// Law: for a text whose blocks all carry names other than the target,
/// upserting appends: the original text survives as a prefix of the merged
/// text, and every located block's characters are unchanged at their
/// original offsets.
pub proof fn lemma_append_preserves_blocks(config: Seq<char>, name: Seq<char>, block: Seq<char>)
    requires
        spec_trim(name).len() > 0,
        spec_parse_profile_blocks(config) matches Ok(bs) && {
            &&& bs.len() >= 1
            &&& forall|k: int, l: int|
                0 <= k < l < bs.len() ==> (#[trigger] bs[k]).name != (#[trigger] bs[l]).name
            &&& forall|k: int| 0 <= k < bs.len() ==> (#[trigger] bs[k]).name != name
        },
    ensures
        spec_upsert(config, name, block) matches Ok(m) && {
            &&& m.len() >= config.len()
            &&& m.subrange(0, config.len() as int) == config
            &&& {
                let bs = spec_parse_profile_blocks(config)->Ok_0;
                forall|k: int|
                    0 <= k < bs.len() ==> m.subrange(
                        (#[trigger] bs[k]).start,
                        bs[k].end,
                    ) == config.subrange(bs[k].start, bs[k].end)
            }
        },
{
    let bs = spec_parse_profile_blocks(config)->Ok_0;
    lemma_no_match_count_zero(bs, name, 0);
    lemma_scan_top_wf(config, 0, false, false, false);
    assert(bs[0].end <= config.len());
    assert(config.len() > 0);
    let canon = spec_ensure_newline(block);
    let merged = spec_append_profile(config, canon);
    assert(canon.len() > 0 && canon.last() == '\n');
    assert(merged.last() == '\n');
    assert(spec_ensure_newline(merged) == merged);
    assert(spec_upsert(config, name, block) == Ok::<Seq<char>, UpsertIssue>(merged));
    assert(forall|k: int| 0 <= k < config.len() ==> merged[k] == config[k]);
    assert(merged.subrange(0, config.len() as int) =~= config);
    assert forall|k: int| 0 <= k < bs.len() implies merged.subrange((#[trigger] bs[k]).start, bs[k].end)
        == config.subrange(bs[k].start, bs[k].end) by {
        assert(0 <= bs[k].start < bs[k].end <= config.len());
        assert(merged.subrange(bs[k].start, bs[k].end) =~= config.subrange(bs[k].start, bs[k].end));
    }
}

/// Law: when the text already holds the canonical block at the matched
/// location, followed by a newline, the upsert replaces it with identical
/// characters: the text comes back unchanged.
pub proof fn lemma_upsert_replaces_identical_bytes(m: Seq<char>, name: Seq<char>, block: Seq<char>)
    requires
        spec_trim(name).len() > 0,
        m.len() > 0,
        m.last() == '\n',
        spec_parse_profile_blocks(m) matches Ok(bs) && {
            &&& spec_count_matches(bs, name) == 1
            &&& {
                let t = bs[crate::upsert::spec_first_match_from(bs, name, 0)];
                &&& t.end < m.len()
                &&& m[t.end] == '\n'
                &&& m.subrange(t.start, t.end) == spec_ensure_newline(block).drop_last()
            }
        },
    ensures
        spec_upsert(m, name, block) == Ok::<Seq<char>, UpsertIssue>(m),
{
    let bs = spec_parse_profile_blocks(m)->Ok_0;
    let t = bs[crate::upsert::spec_first_match_from(bs, name, 0)];
    lemma_scan_top_wf(m, 0, false, false, false);
    crate::upsert::lemma_first_match_from_wf(bs, name, 0);
    let canon = spec_ensure_newline(block);
    assert(canon.len() > 0 && canon.last() == '\n');
    let suffix = m.subrange(t.end, m.len() as int);
    assert(suffix[0] == m[t.end]);
    let repl = canon.drop_last();
    assert(repl == m.subrange(t.start, t.end));
    let merged = m.subrange(0, t.start) + repl + suffix;
    assert(merged =~= m);
    assert(spec_ensure_newline(merged) == merged);
}

/// Law: starting from an empty configuration, upserting the same block
/// twice yields the same text both times, provided the block text itself
/// scans as a single block named for the target, spanning everything up to
/// its final newline.
pub proof fn lemma_upsert_idempotent_on_empty(name: Seq<char>, block: Seq<char>)
    requires
        spec_trim(name).len() > 0,
        spec_parse_profile_blocks(spec_ensure_newline(block)) matches Ok(cbs) && {
            &&& cbs.len() == 1
            &&& cbs[0].name == name
            &&& cbs[0].start == 0
            &&& cbs[0].end == spec_ensure_newline(block).len() - 1
        },
    ensures
        spec_upsert(Seq::empty(), name, block) matches Ok(m1) && spec_upsert(m1, name, block)
            == Ok::<Seq<char>, UpsertIssue>(m1),
{
    let canon = spec_ensure_newline(block);
    let cbs = spec_parse_profile_blocks(canon)->Ok_0;
    let empty: Seq<char> = Seq::empty();
    assert(spec_parse_profile_blocks(empty) == Ok::<Seq<GBlock>, crate::scan::ParseIssue>(
        Seq::empty(),
    ));
    assert(spec_count_matches(Seq::<GBlock>::empty(), name) == 0);
    assert(spec_append_profile(empty, canon) == canon);
    assert(canon.len() > 0 && canon.last() == '\n');
    assert(spec_ensure_newline(canon) == canon);
    assert(spec_upsert(empty, name, block) == Ok::<Seq<char>, UpsertIssue>(canon));
    assert(spec_count_matches_from(cbs, name, 1) == 0);
    assert(spec_count_matches(cbs, name) == 1);
    assert(crate::upsert::spec_first_match_from(cbs, name, 0) == 0);
    assert(canon[cbs[0].end] == '\n');
    assert(canon.subrange(0, canon.len() - 1) =~= canon.drop_last());
    lemma_upsert_replaces_identical_bytes(canon, name, block);
}

/// The normalised block text scans as exactly one block, carrying `name`,
/// that spans everything up to the final newline.
pub open spec fn spec_is_single_block_text(canon: Seq<char>, name: Seq<char>) -> bool {
    spec_parse_profile_blocks(canon) matches Ok(cbs) && {
        &&& cbs.len() == 1
        &&& cbs[0].name == name
        &&& cbs[0].start == 0
        &&& cbs[0].end == canon.len() - 1
    }
}

/// The facts about a single-block text that the idempotence proof uses.
proof fn lemma_single_block_text_facts(canon: Seq<char>, name: Seq<char>)
    requires
        spec_is_single_block_text(canon, name),
    ensures
        canon.len() >= 9,
        canon[canon.len() - 2] == '}',
        spec_is_profile_start(canon, 0),
        spec_parse_block(canon, 0) == Ok::<(GBlock, int), ParseIssue>(
            (GBlock { name, start: 0, end: canon.len() - 1 }, canon.len() - 1),
        ),
        spec_scan_top(canon, canon.len() - 1, false, false, false) == Ok::<
            Seq<GBlock>,
            ParseIssue,
        >(Seq::empty()),
{
    let cbs = spec_parse_profile_blocks(canon)->Ok_0;
    let cb = cbs[0];
    let clen = canon.len() as int;
    lemma_scan_top_decompose(canon, 0, false, false, false);
    assert(spec_is_profile_start(canon, cb.start));
    assert(spec_parse_block(canon, cb.start) == Ok::<(GBlock, int), ParseIssue>((cb, cb.end)));
    assert(spec_scan_top(canon, cb.end, false, false, false) == Ok::<Seq<GBlock>, ParseIssue>(
        cbs.skip(1),
    ));
    assert(cbs.skip(1) =~= Seq::<GBlock>::empty());
    lemma_parse_block_next(canon, 0);
    lemma_scan_ws_next(canon, 0, 7);
    assert(clen - 1 > 7);
    assert(canon[clen - 2] == '}');
    assert(cb == GBlock { name, start: 0, end: clen - 1 });
}

/// Idempotence, append case: when no block carries the target name, the
/// first upsert appends the block and the second replaces it with identical
/// characters.
proof fn lemma_append_scan(config: Seq<char>, name: Seq<char>, block: Seq<char>)
    requires
        spec_trim(name).len() > 0,
        spec_is_single_block_text(spec_ensure_newline(block), name),
        spec_parse_profile_blocks(config) matches Ok(bs) && spec_count_matches(bs, name) == 0,
        config.len() > 0,
        config.last() == '\n',
        !spec_state_at(config, 0, false, false, false, config.len() as int).1,
    ensures
        spec_upsert(config, name, block) matches Ok(m1) && ({
            let bs = spec_parse_profile_blocks(config)->Ok_0;
            let q = config.len() + spec_append_separator(config).len();
            let canon = spec_ensure_newline(block);
            &&& m1 == config + spec_append_separator(config) + canon
            &&& spec_parse_profile_blocks(m1) == Ok::<Seq<GBlock>, ParseIssue>(
                bs + seq![GBlock { name, start: q as int, end: q + canon.len() - 1 }],
            )
            &&& spec_upsert(m1, name, block) == Ok::<Seq<char>, UpsertIssue>(m1)
        }),
{
    let canon = spec_ensure_newline(block);
    let clen = canon.len() as int;
    lemma_single_block_text_facts(canon, name);
    assert(canon.last() == '\n');
    let bs = spec_parse_profile_blocks(config)->Ok_0;
    lemma_scan_top_wf(config, 0, false, false, false);
    let p = config.len() as int;
    let sep = spec_append_separator(config);
    assert(sep.len() <= 1);
    let q = p + sep.len() as int;
    let m1 = config + sep + canon;
    assert(spec_append_profile(config, canon) == m1);
    assert(m1.len() == q + clen);
    assert(forall|k: int| 0 <= k < p ==> m1[k] == config[k]);
    assert(forall|k: int| 0 <= k < clen ==> m1[q + k] == canon[k]);
    assert(m1[m1.len() - 1] == canon[clen - 1]);
    assert(m1.last() == '\n');
    assert(spec_ensure_newline(m1) == m1);
    assert(spec_upsert(config, name, block) == Ok::<Seq<char>, UpsertIssue>(m1));
    // the scans of the configuration and the merged text run in lockstep up
    // to the old end of the configuration
    assert(spec_keyword()[0] == 'p');
    assert(spec_keyword()[1] == 'r');
    assert(spec_keyword()[2] == 'o');
    assert(spec_keyword()[3] == 'f');
    assert(spec_keyword()[4] == 'i');
    assert(spec_keyword()[5] == 'l');
    assert(spec_keyword()[6] == 'e');
    assert forall|j: int| p - 8 < j && j < p implies spec_is_profile_start(config, j)
        == spec_is_profile_start(m1, j) by {
        if 0 <= j {
            if j + 7 < p {
                assert(config.subrange(j, j + 7) =~= m1.subrange(j, j + 7));
                assert(config[j + 7] == m1[j + 7]);
                if j > 0 {
                    assert(config[j - 1] == m1[j - 1]);
                }
            } else {
                assert(!spec_is_profile_start(config, j));
                assert(!spec_is_profile_start(m1, j)) by {
                    if spec_is_profile_start(m1, j) {
                        assert(j <= p - 1 < j + 7);
                        assert(m1.subrange(j, j + 7)[p - 1 - j] == m1[p - 1]);
                        assert(m1[p - 1] == '\n');
                    }
                }
            }
        }
    }
    lemma_scan_lockstep(config, m1, 0, false, false, false, p);
    let stp = spec_state_at(config, 0, false, false, false, p);
    lemma_state_at_last_newline(config, 0, false, false, false);
    lemma_state_at_esc(config, 0, false, false, false, p);
    assert(stp == (false, false, false));
    lemma_blocks_before_split(bs, p, bs.len() as int);
    assert(spec_blocks_before(bs, p) == bs.len());
    assert(bs.take(bs.len() as int) =~= bs);
    // from the cut on, the merged text is the separator (at most one
    // newline) followed by the block text
    lemma_scan_top_translate(canon, m1, 0, q, false, false, false);
    assert(spec_scan_top(m1, q, false, false, false) == Ok::<Seq<GBlock>, ParseIssue>(
        spec_shift_blocks(spec_parse_profile_blocks(canon)->Ok_0, q),
    ));
    let cbq = GBlock { name, start: q, end: q + clen - 1 };
    assert(spec_shift_blocks(spec_parse_profile_blocks(canon)->Ok_0, q) =~= seq![cbq]);
    if sep.len() == 1 {
        assert(m1[p] == '\n');
        assert(!spec_is_profile_start(m1, p)) by {
            if spec_is_profile_start(m1, p) {
                assert(m1.subrange(p, p + 7)[0] == m1[p]);
            }
        }
        assert(spec_scan_top(m1, p, false, false, false) == spec_scan_top(
            m1,
            p + 1,
            false,
            false,
            false,
        ));
    }
    assert(spec_scan_top(m1, p, false, false, false) == Ok::<Seq<GBlock>, ParseIssue>(seq![cbq]));
    let bs1 = bs + seq![cbq];
    assert(bs.take(bs.len() as int) + seq![cbq] =~= bs1);
    assert(spec_parse_profile_blocks(m1) == Ok::<Seq<GBlock>, ParseIssue>(bs1));
    // the appended block is the unique match of the merged text
    lemma_count_zero_no_match(bs, name, 0);
    assert(bs1[bs.len() as int] == cbq);
    assert(forall|k: int| 0 <= k < bs.len() ==> bs1[k] == bs[k]);
    lemma_single_match(bs1, name, bs.len() as int, 0);
    assert(spec_first_match_from(bs1, name, 0) == bs.len());
    assert(m1[cbq.end] == canon[clen - 1]);
    assert(m1.subrange(cbq.start, cbq.end) =~= canon.drop_last());
    lemma_upsert_replaces_identical_bytes(m1, name, block);
}

/// Law: appending under a fresh name round-trips through the locator: the
/// merged text scans as the old blocks — their characters unchanged at
/// their old offsets — followed by exactly one new block carrying the
/// target name.
pub proof fn lemma_append_round_trip(config: Seq<char>, name: Seq<char>, block: Seq<char>)
    requires
        spec_trim(name).len() > 0,
        spec_is_single_block_text(spec_ensure_newline(block), name),
        spec_parse_profile_blocks(config) matches Ok(bs) && spec_count_matches(bs, name) == 0,
        config.len() > 0,
        config.last() == '\n',
        !spec_state_at(config, 0, false, false, false, config.len() as int).1,
    ensures
        spec_upsert(config, name, block) matches Ok(m1) && ({
            let bs = spec_parse_profile_blocks(config)->Ok_0;
            let m1bs = spec_parse_profile_blocks(m1);
            &&& m1bs matches Ok(bs1)
            &&& m1bs->Ok_0.len() == bs.len() + 1
            &&& forall|k: int| 0 <= k < bs.len() ==> m1bs->Ok_0[k] == bs[k]
            &&& m1bs->Ok_0.last().name == name
            &&& forall|k: int|
                0 <= k < bs.len() ==> m1.subrange((#[trigger] bs[k]).start, bs[k].end)
                    == config.subrange(bs[k].start, bs[k].end)
        }),
{
    lemma_append_scan(config, name, block);
    let bs = spec_parse_profile_blocks(config)->Ok_0;
    let m1 = spec_upsert(config, name, block)->Ok_0;
    lemma_scan_top_wf(config, 0, false, false, false);
    assert(forall|k: int| 0 <= k < config.len() ==> m1[k] == config[k]);
    let bs1 = spec_parse_profile_blocks(m1)->Ok_0;
    assert(forall|k: int| 0 <= k < bs.len() ==> bs1[k] == bs[k]);
    assert forall|k: int| 0 <= k < bs.len() implies m1.subrange((#[trigger] bs[k]).start, bs[k].end)
        == config.subrange(bs[k].start, bs[k].end) by {
        assert(0 <= bs[k].start < bs[k].end <= config.len());
        assert(m1.subrange(bs[k].start, bs[k].end) =~= config.subrange(bs[k].start, bs[k].end));
    }
}

/// When both texts agree before `p` and both carry the keyword's `p` at
/// `p`, candidate block starts near the boundary agree: a keyword cannot
/// straddle a position that holds `p`, and a candidate ending right before
/// it is followed by a non-whitespace character in both texts.
proof fn lemma_boundary_profile_start_eq(s1: Seq<char>, s2: Seq<char>, p: int)
    requires
        0 <= p,
        p < s1.len(),
        p < s2.len(),
        forall|k: int| 0 <= k < p ==> s1[k] == s2[k],
        s1[p] == 'p',
        s2[p] == 'p',
    ensures
        forall|j: int|
            p - 8 < j && j < p ==> spec_is_profile_start(s1, j) == spec_is_profile_start(s2, j),
{
    assert(spec_keyword()[0] == 'p');
    assert(spec_keyword()[1] == 'r');
    assert(spec_keyword()[2] == 'o');
    assert(spec_keyword()[3] == 'f');
    assert(spec_keyword()[4] == 'i');
    assert(spec_keyword()[5] == 'l');
    assert(spec_keyword()[6] == 'e');
    assert forall|j: int| p - 8 < j && j < p implies spec_is_profile_start(s1, j)
        == spec_is_profile_start(s2, j) by {
        if 0 <= j {
            if j + 7 < p {
                assert(s1.subrange(j, j + 7) =~= s2.subrange(j, j + 7));
                assert(s1[j + 7] == s2[j + 7]);
                if j > 0 {
                    assert(s1[j - 1] == s2[j - 1]);
                }
            } else if j + 7 == p {
                assert(!spec_is_profile_start(s1, j));
                assert(!spec_is_profile_start(s2, j));
            } else {
                assert(!spec_is_profile_start(s1, j)) by {
                    if spec_is_profile_start(s1, j) {
                        assert(j <= p < j + 7);
                        assert(s1.subrange(j, j + 7)[p - j] == s1[p]);
                    }
                }
                assert(!spec_is_profile_start(s2, j)) by {
                    if spec_is_profile_start(s2, j) {
                        assert(j <= p < j + 7);
                        assert(s2.subrange(j, j + 7)[p - j] == s2[p]);
                    }
                }
            }
        }
    }
}

/// The text that replaces block `t` of `config` with `repl`.
pub open spec fn spec_splice(config: Seq<char>, t: GBlock, repl: Seq<char>) -> Seq<char> {
    config.subrange(0, t.start) + repl + config.subrange(t.end, config.len() as int)
}

/// Scanning a spliced text up to the replaced block's start: the scans of
/// the original and the spliced text run in lockstep there, and the blocks
/// before it come out unchanged.
/// The ordering facts around one located block: everything before it ends
/// by its start, everything from it on starts at or past its start, and it
/// begins at a candidate keyword.
proof fn lemma_block_split_facts(config: Seq<char>, idx_t: int)
    requires
        spec_parse_profile_blocks(config) matches Ok(bs) && 0 <= idx_t < bs.len(),
    ensures
        spec_parse_profile_blocks(config) matches Ok(bs) && ({
            let p = bs[idx_t].start;
            &&& 0 <= bs[idx_t].start < bs[idx_t].end <= config.len()
            &&& spec_is_profile_start(config, p)
            &&& forall|k: int|
                0 <= k < bs.len() ==> ((#[trigger] bs[k]).start < p ==> bs[k].end <= p)
            &&& forall|k: int| 0 <= k < idx_t ==> (#[trigger] bs[k]).start < p
            &&& forall|k: int| idx_t <= k < bs.len() ==> (#[trigger] bs[k]).start >= p
            &&& spec_blocks_before(bs, p) == idx_t
        }),
{
    let bs = spec_parse_profile_blocks(config)->Ok_0;
    let p = bs[idx_t].start;
    lemma_scan_top_wf(config, 0, false, false, false);
    lemma_scan_top_decompose(config, 0, false, false, false);
    assert(spec_is_profile_start(config, bs[idx_t].start));
    assert forall|k: int|
        0 <= k < bs.len() implies {
        &&& ((#[trigger] bs[k]).start < p ==> bs[k].end <= p)
        &&& (k < idx_t ==> bs[k].start < p)
        &&& (k >= idx_t ==> bs[k].start >= p)
    } by {
        if k < idx_t {
            lemma_blocks_ordered_trans(bs, k, idx_t);
        } else if k > idx_t {
            lemma_blocks_ordered_trans(bs, idx_t, k);
        }
    }
    lemma_blocks_before_split(bs, p, idx_t);
}

#[verifier::rlimit(100)]
proof fn lemma_splice_prefix(config: Seq<char>, m1: Seq<char>, idx_t: int)
    requires
        spec_parse_profile_blocks(config) matches Ok(bs) && {
            &&& 0 <= idx_t < bs.len()
            &&& bs[idx_t].start < m1.len()
            &&& m1[bs[idx_t].start] == 'p'
            &&& forall|k: int| 0 <= k < bs[idx_t].start ==> m1[k] == config[k]
        },
    ensures
        spec_parse_profile_blocks(config) matches Ok(bs) && ({
            let p = bs[idx_t].start;
            spec_scan_top(m1, 0, false, false, false) == (match spec_scan_top(
                m1,
                p,
                false,
                false,
                false,
            ) {
                Ok(r2) => Ok::<Seq<GBlock>, ParseIssue>(bs.take(idx_t) + r2),
                Err(e2) => Err::<Seq<GBlock>, ParseIssue>(e2),
            })
        }),
{
    let bs = spec_parse_profile_blocks(config)->Ok_0;
    let p = bs[idx_t].start;
    lemma_block_split_facts(config, idx_t);
    assert(config[p] == 'p') by {
        assert(config.subrange(p, p + 7)[0] == config[p]);
        assert(spec_keyword()[0] == 'p');
    }
    lemma_boundary_profile_start_eq(config, m1, p);
    lemma_scan_lockstep(config, m1, 0, false, false, false, p);
    lemma_scan_restart(config, 0, false, false, false, p);
    let stp = spec_state_at(config, 0, false, false, false, p);
    assert(spec_scan_top(config, p, stp.0, stp.1, stp.2) == Ok::<Seq<GBlock>, ParseIssue>(
        bs.skip(idx_t),
    ));
    assert(bs.skip(idx_t).len() > 0);
    assert(bs.skip(idx_t)[0] == bs[idx_t]);
    if stp.0 || stp.1 {
        lemma_no_block_starts_in_comment_or_string(config, p, stp.0, stp.1, stp.2);
        let bsx = spec_scan_top(config, p, stp.0, stp.1, stp.2)->Ok_0;
        assert(bsx == bs.skip(idx_t));
        assert(bsx[0].start > p);
        assert(bsx[0] == bs[idx_t]);
        assert(false);
    }
    assert(!stp.0 && !stp.1);
    lemma_state_at_esc(config, 0, false, false, false, p);
    assert(!stp.2);
    assert(stp == (false, false, false));
}

/// Scanning a spliced text from the replaced block's start: the spliced
/// single-block text parses there, and the old text after the replaced
/// block follows, shifted.
#[verifier::rlimit(100)]
proof fn lemma_splice_at_block(
    config: Seq<char>,
    canon: Seq<char>,
    name: Seq<char>,
    idx_t: int,
    strip: bool,
)
    requires
        spec_is_single_block_text(canon, name),
        canon.last() == '\n',
        spec_parse_profile_blocks(config) matches Ok(bs) && {
            &&& 0 <= idx_t < bs.len()
            &&& (strip ==> bs[idx_t].end < config.len() && config[bs[idx_t].end] == '\n')
        },
    ensures
        spec_parse_profile_blocks(config) matches Ok(bs) && ({
            let t = bs[idx_t];
            let repl = if strip {
                canon.drop_last()
            } else {
                canon
            };
            let m1 = spec_splice(config, t, repl);
            let d = m1.len() - config.len();
            let cb_p = GBlock { name, start: t.start, end: t.start + canon.len() - 1 };
            spec_scan_top(m1, t.start, false, false, false) == Ok::<Seq<GBlock>, ParseIssue>(
                seq![cb_p] + spec_shift_blocks(bs.skip(idx_t + 1), d),
            )
        }),
{
    let bs = spec_parse_profile_blocks(config)->Ok_0;
    let t = bs[idx_t];
    let len = config.len() as int;
    let clen = canon.len() as int;
    lemma_single_block_text_facts(canon, name);
    lemma_scan_top_wf(config, 0, false, false, false);
    lemma_scan_top_decompose(config, 0, false, false, false);
    assert(spec_is_profile_start(config, t.start));
    lemma_parse_block_next(config, t.start);
    assert(config[t.end - 1] == '}');
    let p = t.start;
    let repl = if strip {
        canon.drop_last()
    } else {
        canon
    };
    let rlen = repl.len() as int;
    assert(rlen >= clen - 1 >= 8);
    assert(forall|k: int| 0 <= k < clen - 1 ==> repl[k] == canon[k]);
    let m1 = spec_splice(config, t, repl);
    assert(m1.len() == p + rlen + (len - t.end));
    assert(forall|k: int| 0 <= k < p ==> m1[k] == config[k]);
    assert(forall|k: int| 0 <= k < rlen ==> m1[p + k] == repl[k]);
    assert(forall|k: int|
        0 <= k < len - t.end ==> #[trigger] m1[p + rlen + k] == config[t.end + k]);
    let e2 = p + clen - 1;
    let cb_p = GBlock { name, start: p, end: e2 };
    // the spliced block parses at its new place
    assert(spec_is_profile_start(m1, p)) by {
        assert(p + 7 < m1.len());
        assert(m1.subrange(p, p + 7) =~= canon.subrange(0, 7));
        assert(m1[p + 7] == repl[7]);
        assert(repl[7] == canon[7]);
        assert(canon.subrange(0, 7)[7 - 7 + 7 - 7] == canon[0]);
        if p > 0 {
            assert(m1[p - 1] == config[p - 1]);
        }
    }
    lemma_parse_block_local(canon, m1, 0, p);
    assert(spec_parse_block(m1, p) == Ok::<(GBlock, int), ParseIssue>((cb_p, e2)));
    // the old text after the replaced block follows, shifted
    assert(spec_scan_top(config, t.end, false, false, false) == Ok::<Seq<GBlock>, ParseIssue>(
        bs.skip(idx_t + 1),
    ));
    let d = m1.len() - len;
    let tail = spec_shift_blocks(bs.skip(idx_t + 1), d);
    if strip {
        assert(rlen == clen - 1);
        assert(d == e2 - t.end);
        assert(forall|k: int| t.end <= k < len ==> config[k] == #[trigger] m1[k + d]) by {
            assert(forall|k: int|
                t.end <= k < len ==> #[trigger] m1[k + d] == m1[p + rlen + (k - t.end)]);
        }
        assert(m1[e2 - 1] == canon[clen - 2]) by {
            assert(m1[p + (clen - 2)] == repl[clen - 2]);
        }
        assert((t.end > 0 && crate::text::spec_is_identifier_char(config[t.end - 1])) == (e2 > 0
            && crate::text::spec_is_identifier_char(m1[e2 - 1])));
        lemma_scan_top_translate(config, m1, t.end, d, false, false, false);
        assert(spec_scan_top(m1, e2, false, false, false) == Ok::<Seq<GBlock>, ParseIssue>(tail));
    } else {
        assert(d == e2 + 1 - t.end);
        assert(m1[e2] == canon[clen - 1]) by {
            assert(m1[p + (clen - 1)] == repl[clen - 1]);
        }
        assert(m1[e2] == '\n');
        assert(e2 < m1.len());
        assert(!spec_is_profile_start(m1, e2)) by {
            if spec_is_profile_start(m1, e2) {
                assert(m1.subrange(e2, e2 + 7)[0] == m1[e2]);
                assert(spec_keyword()[0] == 'p');
            }
        }
        assert(spec_scan_top(m1, e2, false, false, false) == spec_scan_top(
            m1,
            e2 + 1,
            false,
            false,
            false,
        ));
        assert(forall|k: int| t.end <= k < len ==> config[k] == #[trigger] m1[k + d]) by {
            assert(forall|k: int|
                t.end <= k < len ==> #[trigger] m1[k + d] == m1[p + rlen + (k - t.end)]);
        }
        assert((t.end > 0 && crate::text::spec_is_identifier_char(config[t.end - 1])) == (e2 + 1
            > 0 && crate::text::spec_is_identifier_char(m1[e2])));
        lemma_scan_top_translate(config, m1, t.end, d, false, false, false);
        assert(spec_scan_top(m1, e2 + 1, false, false, false) == Ok::<Seq<GBlock>, ParseIssue>(
            tail,
        ));
        assert(spec_scan_top(m1, e2, false, false, false) == Ok::<Seq<GBlock>, ParseIssue>(tail));
    }
    assert(spec_scan_top(m1, p, false, false, false) == Ok::<Seq<GBlock>, ParseIssue>(
        seq![cb_p] + tail,
    ));
}

/// Idempotence, replace case: when exactly one block carries the target
/// name, the first upsert splices the block over it and the second replaces
/// the spliced block with identical characters.
#[verifier::rlimit(100)]
proof fn lemma_upsert_idempotent_replace(config: Seq<char>, name: Seq<char>, block: Seq<char>)
    requires
        spec_trim(name).len() > 0,
        spec_is_single_block_text(spec_ensure_newline(block), name),
        spec_parse_profile_blocks(config) matches Ok(bs) && spec_count_matches(bs, name) == 1,
        config.len() > 0 ==> config.last() == '\n',
    ensures
        spec_upsert(config, name, block) matches Ok(m1) && spec_upsert(m1, name, block) == Ok::<
            Seq<char>,
            UpsertIssue,
        >(m1),
{
    let canon = spec_ensure_newline(block);
    let clen = canon.len() as int;
    lemma_single_block_text_facts(canon, name);
    assert(canon.last() == '\n');
    assert(canon[0] == 'p') by {
        assert(canon.subrange(0, 7)[0] == canon[0]);
        assert(spec_keyword()[0] == 'p');
    }
    let bs = spec_parse_profile_blocks(config)->Ok_0;
    let len = config.len() as int;
    lemma_scan_top_wf(config, 0, false, false, false);
    lemma_first_match_from_wf(bs, name, 0);
    let idx_t = spec_first_match_from(bs, name, 0);
    assert(0 <= idx_t < bs.len());
    let t = bs[idx_t];
    assert(t.name == name);
    assert(0 <= t.start < t.end <= len);
    lemma_count_from_skip_no_match(bs, name, 0, idx_t);
    assert(spec_count_matches_from(bs, name, idx_t + 1) == 0);
    lemma_count_zero_no_match(bs, name, idx_t + 1);
    // the spliced text of the first upsert
    let strip = t.end < len && config[t.end] == '\n';
    let repl = if strip {
        canon.drop_last()
    } else {
        canon
    };
    let rlen = repl.len() as int;
    assert(rlen >= clen - 1 >= 8);
    assert(forall|k: int| 0 <= k < clen - 1 ==> repl[k] == canon[k]);
    let suffix = config.subrange(t.end, len);
    let m1 = spec_splice(config, t, repl);
    assert(m1 == config.subrange(0, t.start) + repl + suffix);
    assert(m1.len() == t.start + rlen + (len - t.end));
    let p = t.start;
    assert(forall|k: int| 0 <= k < p ==> m1[k] == config[k]);
    assert(forall|k: int| 0 <= k < rlen ==> m1[p + k] == repl[k]);
    assert(forall|k: int|
        0 <= k < len - t.end ==> #[trigger] m1[p + rlen + k] == config[t.end + k]);
    assert(m1.last() == '\n') by {
        if t.end < len {
            assert(m1[m1.len() - 1] == config[len - 1]);
        } else {
            assert(!strip);
            assert(m1[m1.len() - 1] == repl[rlen - 1]);
            assert(repl[rlen - 1] == canon[clen - 1]);
        }
    }
    assert(spec_ensure_newline(m1) == m1);
    assert(suffix.len() > 0 ==> suffix[0] == config[t.end]);
    assert(spec_upsert(config, name, block) == Ok::<Seq<char>, UpsertIssue>(m1));
    // the spliced text scans as: the blocks before, the spliced block, and
    // the blocks after, shifted
    assert(m1[p] == 'p') by {
        assert(m1[p + 0] == repl[0]);
    }
    lemma_splice_prefix(config, m1, idx_t);
    lemma_splice_at_block(config, canon, name, idx_t, strip);
    let d = m1.len() - len;
    let e2 = p + clen - 1;
    let cb_p = GBlock { name, start: p, end: e2 };
    let tail = spec_shift_blocks(bs.skip(idx_t + 1), d);
    assert(spec_scan_top(m1, p, false, false, false) == Ok::<Seq<GBlock>, ParseIssue>(
        seq![cb_p] + tail,
    ));
    let bs1 = bs.take(idx_t) + (seq![cb_p] + tail);
    assert(spec_parse_profile_blocks(m1) == Ok::<Seq<GBlock>, ParseIssue>(bs1));
    // the spliced block is the unique match of the new text
    assert(bs1.len() == bs.len());
    assert(bs1[idx_t] == cb_p);
    assert(forall|k: int| 0 <= k < idx_t ==> bs1[k] == bs[k]);
    assert(forall|k: int| idx_t < k < bs1.len() ==> bs1[k] == tail[k - idx_t - 1]);
    assert forall|k: int| 0 <= k < bs1.len() && k != idx_t implies (#[trigger] bs1[k]).name
        != name by {
        if k < idx_t {
            assert(bs1[k] == bs[k]);
        } else {
            assert(bs1[k] == tail[k - idx_t - 1]);
            assert(tail[k - idx_t - 1].name == bs.skip(idx_t + 1)[k - idx_t - 1].name);
            assert(bs.skip(idx_t + 1)[k - idx_t - 1] == bs[k]);
        }
    }
    lemma_single_match(bs1, name, idx_t, 0);
    assert(spec_first_match_from(bs1, name, 0) == idx_t);
    // the second upsert replaces the spliced block with identical characters
    assert(e2 < m1.len());
    assert(m1[e2] == '\n') by {
        if strip {
            assert(m1[p + rlen + 0] == config[t.end]);
        } else {
            assert(m1[p + (clen - 1)] == repl[clen - 1]);
        }
    }
    assert(m1.subrange(p, e2) =~= canon.drop_last());
    lemma_upsert_replaces_identical_bytes(m1, name, block);
}

/// Law: upserting the same block twice with identical content yields the
/// same final text both times — the second run replaces with identical
/// characters. The block text must itself scan as a single block named for
/// the target and spanning everything up to its final newline; the
/// configuration must scan, carry at most one block of that name, end in a
/// newline when it is non-empty, and not end in the middle of a quoted
/// string (an unclosed string would swallow the start of the appended
/// block and change what a rescan sees).
pub proof fn lemma_upsert_idempotent(config: Seq<char>, name: Seq<char>, block: Seq<char>)
    requires
        spec_trim(name).len() > 0,
        spec_is_single_block_text(spec_ensure_newline(block), name),
        spec_parse_profile_blocks(config) matches Ok(bs) && spec_count_matches(bs, name) <= 1,
        config.len() > 0 ==> config.last() == '\n',
        !spec_state_at(config, 0, false, false, false, config.len() as int).1,
    ensures
        spec_upsert(config, name, block) matches Ok(m1) && spec_upsert(m1, name, block) == Ok::<
            Seq<char>,
            UpsertIssue,
        >(m1),
{
    let bs = spec_parse_profile_blocks(config)->Ok_0;
    lemma_count_matches_from_nonneg(bs, name, 0);
    if config.len() == 0 {
        assert(config =~= Seq::<char>::empty());
        lemma_upsert_idempotent_on_empty(name, block);
    } else if spec_count_matches(bs, name) == 0 {
        lemma_append_scan(config, name, block);
    } else {
        lemma_upsert_idempotent_replace(config, name, block);
    }
}

/// The scan passes over a run of comment characters without leaving
/// comment mode.
proof fn lemma_comment_run(s: Seq<char>, i: int, j: int)
    requires
        0 <= i <= j <= s.len(),
        forall|k: int| i <= k < j ==> s[k] != '\n',
    ensures
        spec_scan_top(s, i, true, false, false) == spec_scan_top(s, j, true, false, false),
    decreases j - i,
{
    if i < j {
        assert(spec_scan_top(s, i, true, false, false) == spec_scan_top(
            s,
            i + 1,
            s[i] != '\n',
            false,
            false,
        ));
        lemma_comment_run(s, i + 1, j);
    }
}

/// Law: a whole `#` comment line at the head of the text is transparent to
/// the locator: the text scans exactly as the text after the comment's
/// newline does, every block shifted past the comment — so a keyword
/// occurrence inside the comment never becomes a block.
pub proof fn lemma_comment_line_transparent(line: Seq<char>, rest: Seq<char>)
    requires
        forall|k: int| 0 <= k < line.len() ==> line[k] != '\n',
    ensures
        ({
            let s = seq!['#'] + line + seq!['\n'] + rest;
            spec_parse_profile_blocks(s) == (match spec_parse_profile_blocks(rest) {
                Ok(bs) => Ok::<Seq<GBlock>, ParseIssue>(spec_shift_blocks(bs, line.len() as int + 2)),
                Err(e) => Err::<Seq<GBlock>, ParseIssue>(spec_shift_issue(e, line.len() as int + 2)),
            })
        }),
{
    let s = seq!['#'] + line + seq!['\n'] + rest;
    let q = line.len() as int + 2;
    assert(s.len() == q + rest.len());
    assert(s[0] == '#');
    assert(forall|k: int| 0 <= k < line.len() ==> #[trigger] s[1 + k] == line[k]);
    assert(s[q - 1] == '\n');
    assert(forall|k: int| 0 <= k < rest.len() ==> #[trigger] s[q + k] == rest[k]);
    assert(spec_scan_top(s, 0, false, false, false) == spec_scan_top(s, 1, true, false, false));
    assert(forall|k: int| 1 <= k < q - 1 ==> s[k] != '\n');
    lemma_comment_run(s, 1, q - 1);
    assert(spec_scan_top(s, q - 1, true, false, false) == spec_scan_top(s, q, false, false, false));
    lemma_scan_top_translate(rest, s, 0, q, false, false, false);
}

/// Law: at a position where the scanner stands inside a line comment or a
/// quoted string, no located block starts — an occurrence of the keyword
/// there is never treated as a block start.
pub proof fn lemma_no_block_starts_in_comment_or_string(
    s: Seq<char>,
    i: int,
    cm: bool,
    instr: bool,
    esc: bool,
)
    requires
        0 <= i <= s.len(),
        cm || instr,
    ensures
        spec_scan_top(s, i, cm, instr, esc) matches Ok(bs) ==> forall|k: int|
            0 <= k < bs.len() ==> (#[trigger] bs[k]).start > i,
{
    if i < s.len() {
        if cm {
            lemma_scan_top_wf(s, i + 1, s[i] != '\n', instr, esc);
        } else {
            if esc {
                lemma_scan_top_wf(s, i + 1, cm, instr, false);
            } else if s[i] == '\\' {
                lemma_scan_top_wf(s, i + 1, cm, instr, true);
            } else if s[i] == '"' {
                lemma_scan_top_wf(s, i + 1, cm, false, esc);
            } else {
                lemma_scan_top_wf(s, i + 1, cm, instr, esc);
            }
        }
    }
}

} // verus!
