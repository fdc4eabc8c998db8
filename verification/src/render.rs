//! The renderer: turns a list of output snapshots into the literal text of
//! one profile block, one indented `output` line per snapshot.

use vstd::prelude::*;
use crate::errors::GenerateError;
use crate::snapshot::{
    lemma_insert_by_name_at,
    lex_le_str,
    spec_active_mode,
    spec_identifier,
    spec_insert_by_name,
    spec_lex_le,
    spec_normalize_transform,
    spec_snaps_view,
    spec_sort_by_name,
    OutputSnapshot,
    SnapView,
};
use crate::text::{
    chars_to_string,
    push_all,
    push_centi,
    push_i64_dec,
    push_str_chars,
    push_u64_dec,
    spec_centi,
    spec_idec,
    spec_trim,
    spec_udec,
    str_to_chars,
    trimmed_is_empty,
};

verus! {

/// The ways rendering can fail: an enabled output lacking required data.
pub ghost enum RenderIssue {
    MissingMode { output: Seq<char> },
    MissingPosition { output: Seq<char> },
    MissingScale { output: Seq<char> },
}

/// One escaped character of a quoted identifier: backslashes and double
/// quotes gain a backslash, everything else stands as it is.
pub open spec fn spec_escape_char(c: char) -> Seq<char> {
    if c == '\\' {
        seq!['\\', '\\']
    } else if c == '"' {
        seq!['\\', '"']
    } else {
        seq![c]
    }
}

/// The escaped text from index `i` on.
pub open spec fn spec_escape_from(s: Seq<char>, i: int) -> Seq<char>
    decreases s.len() - i,
    when 0 <= i <= s.len()
{
    if i >= s.len() {
        Seq::empty()
    } else {
        spec_escape_char(s[i]) + spec_escape_from(s, i + 1)
    }
}

/// The text with backslashes and double quotes backslash-escaped.
pub open spec fn spec_escape(s: Seq<char>) -> Seq<char> {
    spec_escape_from(s, 0)
}

/// Escapes a raw identifier for use inside a double-quoted token.
pub fn escape_kanshi_quoted(raw: &Vec<char>) -> (r: Vec<char>)
    ensures
        r@ == spec_escape(raw@),
{
    let mut out: Vec<char> = Vec::new();
    let mut i: usize = 0;
    while i < raw.len()
        invariant
            0 <= i <= raw.len(),
            spec_escape(raw@) == out@ + spec_escape_from(raw@, i as int),
        decreases raw.len() - i,
    {
        let ghost oi = i as int;
        let c = raw[i];
        if c == '\\' {
            out.push('\\');
            out.push('\\');
        } else if c == '"' {
            out.push('\\');
            out.push('"');
        } else {
            out.push(c);
        }
        i = i + 1;
        proof {
            assert(spec_escape_from(raw@, oi) == spec_escape_char(raw@[oi]) + spec_escape_from(
                raw@,
                oi + 1,
            ));
            assert(out@ + spec_escape_from(raw@, i as int) =~= spec_escape(raw@));
        }
    }
    assert(out@ =~= spec_escape(raw@));
    out
}

/// The text of the `output` line one snapshot produces, or the data it is
/// missing. Disabled outputs get a `disable` line; enabled ones a full
/// mode/position/scale line with an optional canonical transform.
pub open spec fn spec_output_line(o: SnapView) -> Result<Seq<char>, RenderIssue> {
    let id = spec_escape(spec_identifier(o));
    if !o.enabled {
        Ok("  output \""@ + id + "\" disable\n"@)
    } else {
        match spec_active_mode(o.modes) {
            None => Err(RenderIssue::MissingMode { output: o.name }),
            Some(m) => match o.position {
                None => Err(RenderIssue::MissingPosition { output: o.name }),
                Some(p) => match o.scale_centi {
                    None => Err(RenderIssue::MissingScale { output: o.name }),
                    Some(sc) => {
                        let base = "  output \""@ + id + "\" mode "@ + spec_udec(m.width as int)
                            + "x"@ + spec_udec(m.height as int) + "@"@ + spec_centi(
                            m.refresh_centihz as int,
                        ) + "Hz position "@ + spec_idec(p.x as int) + ","@ + spec_idec(p.y as int)
                            + " scale "@ + spec_centi(sc as int);
                        let tail = match o.transform {
                            Some(t) => match spec_normalize_transform(t) {
                                Some(ct) => " transform "@ + ct,
                                None => Seq::<char>::empty(),
                            },
                            None => Seq::<char>::empty(),
                        };
                        Ok(base + tail + "\n"@)
                    },
                },
            },
        }
    }
}

/// The concatenated `output` lines from snapshot `i` on, or the first
/// failure.
pub open spec fn spec_profile_body_from(outs: Seq<SnapView>, i: int) -> Result<
    Seq<char>,
    RenderIssue,
>
    decreases outs.len() - i,
    when 0 <= i <= outs.len()
{
    if i >= outs.len() {
        Ok(Seq::empty())
    } else {
        match spec_output_line(outs[i]) {
            Ok(line) => match spec_profile_body_from(outs, i + 1) {
                Ok(rest) => Ok(line + rest),
                Err(e) => Err(e),
            },
            Err(e) => Err(e),
        }
    }
}

/// The full text of one profile block for the given snapshots, or the
/// first rendering failure.
pub open spec fn spec_render_profile(name: Seq<char>, outs: Seq<SnapView>) -> Result<
    Seq<char>,
    RenderIssue,
> {
    match spec_profile_body_from(outs, 0) {
        Ok(body) => Ok("profile "@ + name + " {\n"@ + body + "}\n"@),
        Err(e) => Err(e),
    }
}

/// Whether the executable error is the one a rendering issue demands.
pub open spec fn spec_is_render_error_for(err: GenerateError, e: RenderIssue) -> bool {
    match e {
        RenderIssue::MissingMode { output } => err matches GenerateError::MissingMode {
            output: o,
        } && o@ == output,
        RenderIssue::MissingPosition { output } => err matches GenerateError::MissingPosition {
            output: o,
        } && o@ == output,
        RenderIssue::MissingScale { output } => err matches GenerateError::MissingScale {
            output: o,
        } && o@ == output,
    }
}

/// Appends the `output` line of one snapshot, or reports what it lacks.
#[verifier::rlimit(100)]
fn push_output_line(out: &mut Vec<char>, o: &OutputSnapshot) -> (r: Option<GenerateError>)
    ensures
        match spec_output_line(o@) {
            Ok(line) => r is None && final(out)@ == old(out)@ + line,
            Err(e) => r matches Some(err) && spec_is_render_error_for(err, e) && final(out)@ == old(
                out,
            )@,
        },
{
    let raw_id = o.identifier();
    let id = escape_kanshi_quoted(&raw_id);
    if !o.enabled {
        push_str_chars(out, "  output \"");
        push_all(out, &id);
        push_str_chars(out, "\" disable\n");
        assert(out@ =~= old(out)@ + ("  output \""@ + id@ + "\" disable\n"@));
        return None;
    }
    let mode = match o.active_mode() {
        Some(m) => m,
        None => {
            return Some(GenerateError::MissingMode { output: o.name.clone() });
        },
    };
    let position = match &o.position {
        Some(p) => *p,
        None => {
            return Some(GenerateError::MissingPosition { output: o.name.clone() });
        },
    };
    let scale = match o.scale_centi {
        Some(sc) => sc,
        None => {
            return Some(GenerateError::MissingScale { output: o.name.clone() });
        },
    };
    let mut line: Vec<char> = Vec::new();
    push_str_chars(&mut line, "  output \"");
    push_all(&mut line, &id);
    push_str_chars(&mut line, "\" mode ");
    push_u64_dec(&mut line, mode.width as u64);
    push_str_chars(&mut line, "x");
    push_u64_dec(&mut line, mode.height as u64);
    push_str_chars(&mut line, "@");
    push_centi(&mut line, mode.refresh_centihz);
    assert(line@ =~= "  output \""@ + id@ + "\" mode "@ + spec_udec(mode.width as int) + "x"@
        + spec_udec(mode.height as int) + "@"@ + spec_centi(mode.refresh_centihz as int));
    let ghost first_half = line@;
    push_str_chars(&mut line, "Hz position ");
    push_i64_dec(&mut line, position.x as i64);
    push_str_chars(&mut line, ",");
    push_i64_dec(&mut line, position.y as i64);
    push_str_chars(&mut line, " scale ");
    push_centi(&mut line, scale);
    assert(line@ =~= first_half + "Hz position "@ + spec_idec(position.x as int) + ","@ + spec_idec(
        position.y as int,
    ) + " scale "@ + spec_centi(scale as int));
    let ghost base = line@;
    match o.normalized_transform() {
        Some(t) => {
            push_str_chars(&mut line, " transform ");
            push_str_chars(&mut line, t);
            assert(line@ =~= base + (" transform "@ + t@));
        },
        None => {},
    }
    push_str_chars(&mut line, "\n");
    proof {
        match spec_output_line(o@) {
            Ok(l) => {
                assert(line@ =~= l);
            },
            Err(_) => {
                assert(false);
            },
        }
    }
    push_all(out, &line);
    None
}

/// The views of a sequence of snapshot references.
pub open spec fn spec_snap_ref_views(s: Seq<&OutputSnapshot>) -> Seq<SnapView> {
    s.map_values(|o: &OutputSnapshot| o@)
}

/// Arranges references to the outputs in ascending name order, the stable
/// sort the renderer emits lines in.
fn sort_outputs_by_name<'a>(outputs: &'a [OutputSnapshot]) -> (r: Vec<&'a OutputSnapshot>)
    ensures
        spec_snap_ref_views(r@) == spec_sort_by_name(spec_snaps_view(outputs@)),
{
    let ghost snaps = spec_snaps_view(outputs@);
    let mut sorted: Vec<&OutputSnapshot> = Vec::new();
    let ghost mut acc: Seq<SnapView> = Seq::empty();
    let n = outputs.len();
    let mut i: usize = 0;
    while i < n
        invariant
            0 <= i <= n,
            n == outputs.len(),
            snaps == spec_snaps_view(outputs@),
            snaps.len() == n,
            acc == snaps.take(i as int),
            spec_snap_ref_views(sorted@) == spec_sort_by_name(acc),
        decreases n - i,
    {
        let ghost oi = i as int;
        let o = vstd::slice::slice_index_get(outputs, i);
        assert(o@ == snaps[oi]);
        let mut j: usize = sorted.len();
        while j > 0 && !lex_le_str(sorted[j - 1].name.as_str(), o.name.as_str())
            invariant
                0 <= j <= sorted.len(),
                forall|k: int|
                    j <= k < sorted@.len() ==> !spec_lex_le(
                        spec_snap_ref_views(sorted@)[k].name,
                        o@.name,
                    ),
            decreases j,
        {
            assert(spec_snap_ref_views(sorted@)[j - 1].name == sorted@[j - 1]@.name);
            j = j - 1;
        }
        let ghost old_sorted = spec_snap_ref_views(sorted@);
        proof {
            if j > 0 {
                assert(spec_lex_le(old_sorted[j as int - 1].name, o@.name));
            }
            lemma_insert_by_name_at(old_sorted, o@, j as int);
        }
        let ghost ov = o@;
        sorted.insert(j, o);
        i = i + 1;
        proof {
            assert(spec_snap_ref_views(sorted@) =~= old_sorted.insert(j as int, ov));
            let new_acc = acc.push(ov);
            assert(new_acc.drop_last() =~= acc);
            assert(spec_sort_by_name(new_acc) == spec_insert_by_name(spec_sort_by_name(acc), ov));
            acc = new_acc;
            assert(acc =~= snaps.take(i as int));
        }
    }
    assert(acc =~= snaps);
    sorted
}

/// Renders the profile block named `profile_name` describing `outputs`:
/// a `profile` header, one line per output in ascending name order, and a
/// closing brace, each line as `spec_output_line` states.
pub fn render_profile(profile_name: &str, outputs: &[OutputSnapshot]) -> (r: Result<
    String,
    GenerateError,
>)
    ensures
        match spec_render_profile(profile_name@, spec_sort_by_name(spec_snaps_view(outputs@))) {
            Ok(t) => r matches Ok(out) && out@ == t,
            Err(e) => r matches Err(err) && spec_is_render_error_for(err, e),
        },
{
    let order = sort_outputs_by_name(outputs);
    let ghost snaps = spec_sort_by_name(spec_snaps_view(outputs@));
    assert(snaps.len() == order@.len());
    let mut out: Vec<char> = Vec::new();
    push_str_chars(&mut out, "profile ");
    push_str_chars(&mut out, profile_name);
    push_str_chars(&mut out, " {\n");
    let ghost header = "profile "@ + profile_name@ + " {\n"@;
    assert(out@ =~= header);
    let n = order.len();
    let mut i: usize = 0;
    while i < n
        invariant
            0 <= i <= n,
            n == order.len(),
            snaps == spec_sort_by_name(spec_snaps_view(outputs@)),
            spec_snap_ref_views(order@) == snaps,
            snaps.len() == n,
            header == "profile "@ + profile_name@ + " {\n"@,
            spec_profile_body_from(snaps, i as int) matches Ok(rest) ==> (
            spec_profile_body_from(snaps, 0) matches Ok(whole) && header + whole == out@ + rest),
            spec_profile_body_from(snaps, i as int) matches Err(e) ==> spec_profile_body_from(
                snaps,
                0,
            ) == spec_profile_body_from(snaps, i as int),
        decreases n - i,
    {
        let ghost oi = i as int;
        let o: &OutputSnapshot = order[i];
        assert(o@ == spec_snap_ref_views(order@)[oi]);
        assert(o@ == snaps[oi]);
        let issue = push_output_line(&mut out, o);
        match issue {
            Some(err) => {
                proof {
                    assert(spec_profile_body_from(snaps, oi) matches Err(e)
                        && spec_is_render_error_for(err, e));
                }
                return Err(err);
            },
            None => {},
        }
        i = i + 1;
        proof {
            match spec_profile_body_from(snaps, i as int) {
                Ok(rest) => {
                    assert(spec_profile_body_from(snaps, oi) matches Ok(w) && w
                        == (match spec_output_line(snaps[oi]) {
                        Ok(line) => line + rest,
                        Err(_) => Seq::<char>::empty(),
                    }));
                    match spec_profile_body_from(snaps, 0) {
                        Ok(whole) => {
                            assert(header + whole =~= out@ + rest);
                        },
                        Err(_) => {},
                    }
                },
                Err(e) => {},
            }
        }
    }
    assert(spec_profile_body_from(snaps, i as int) == Ok::<Seq<char>, RenderIssue>(
        Seq::<char>::empty(),
    ));
    push_str_chars(&mut out, "}\n");
    proof {
        match spec_render_profile(profile_name@, snaps) {
            Ok(t) => {
                assert(out@ =~= t);
            },
            Err(_) => {
                assert(false);
            },
        }
    }
    Ok(chars_to_string(&out))
}

/// Renders the profile block for `profile_name`, its lines in ascending
/// name order, rejecting a blank name before any output is examined.
pub fn generate_profile_from_outputs(profile_name: &str, outputs: &[OutputSnapshot]) -> (r: Result<
    String,
    GenerateError,
>)
    ensures
        spec_trim(profile_name@).len() == 0 ==> r matches Err(GenerateError::EmptyProfileName),
        spec_trim(profile_name@).len() > 0 ==> match spec_render_profile(
            profile_name@,
            spec_sort_by_name(spec_snaps_view(outputs@)),
        ) {
            Ok(t) => r matches Ok(out) && out@ == t,
            Err(e) => r matches Err(err) && spec_is_render_error_for(err, e),
        },
{
    let name_chars = str_to_chars(profile_name);
    if trimmed_is_empty(&name_chars) {
        return Err(GenerateError::EmptyProfileName);
    }
    render_profile(profile_name, outputs)
}

} // verus!
