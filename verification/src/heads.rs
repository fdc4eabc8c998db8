//! Turning raw display-server head state into validated output snapshots:
//! every mode must carry a non-negative width and height and a refresh rate,
//! absent identifying fields fall back to defaults, and the outputs come out
//! sorted by name.

use vstd::prelude::*;
use crate::errors::GenerateError;
use crate::snapshot::{
    lemma_insert_by_name_at,
    lex_le_str,
    spec_insert_by_name,
    spec_lex_le,
    spec_snaps_view,
    spec_sort_by_name,
    ModeSnapshot,
    OutputSnapshot,
    PositionSnapshot,
    SnapView,
};
use crate::text::{chars_to_string, push_str_chars, str_to_chars};

verus! {

/// One mode as the display server reports it, fields possibly missing.
#[derive(Debug, Clone, Copy)]
pub struct HeadModeSnapshot {
    pub width: Option<i32>,
    pub height: Option<i32>,
    pub refresh_mhz: Option<i32>,
    pub preferred: bool,
    pub current: bool,
}

/// One head as the display server reports it, fields possibly missing. The
/// scale is already in hundredths.
#[derive(Debug, Clone)]
pub struct HeadSnapshot {
    pub name: Option<String>,
    pub make: Option<String>,
    pub model: Option<String>,
    pub serial: Option<String>,
    pub enabled: Option<bool>,
    pub modes: Vec<HeadModeSnapshot>,
    pub position: Option<PositionSnapshot>,
    pub scale_centi: Option<i64>,
    pub transform: Option<String>,
}

/// The mathematical view of a reported head.
pub ghost struct HeadView {
    pub name: Option<Seq<char>>,
    pub make: Option<Seq<char>>,
    pub model: Option<Seq<char>>,
    pub serial: Option<Seq<char>>,
    pub enabled: Option<bool>,
    pub modes: Seq<HeadModeSnapshot>,
    pub position: Option<PositionSnapshot>,
    pub scale_centi: Option<i64>,
    pub transform: Option<Seq<char>>,
}

impl View for HeadSnapshot {
    type V = HeadView;

    open spec fn view(&self) -> HeadView {
        HeadView {
            name: match self.name {
                Some(n) => Some(n@),
                None => None,
            },
            make: match self.make {
                Some(m) => Some(m@),
                None => None,
            },
            model: match self.model {
                Some(m) => Some(m@),
                None => None,
            },
            serial: match self.serial {
                Some(s) => Some(s@),
                None => None,
            },
            enabled: self.enabled,
            modes: self.modes@,
            position: self.position,
            scale_centi: self.scale_centi,
            transform: match self.transform {
                Some(t) => Some(t@),
                None => None,
            },
        }
    }
}

/// The views of a sequence of reported heads.
pub open spec fn spec_heads_view(s: Seq<HeadSnapshot>) -> Seq<HeadView> {
    s.map_values(|h: HeadSnapshot| h@)
}

/// The name an output is reported under, or the placeholder.
pub open spec fn spec_head_name(h: HeadView) -> Seq<char> {
    match h.name {
        Some(n) => n,
        None => "<unknown>"@,
    }
}

/// The details of a protocol failure over one mode of output `name`.
pub open spec fn spec_mode_issue(name: Seq<char>, m: HeadModeSnapshot) -> Option<Seq<char>> {
    if m.width is None {
        Some("mode for output `"@ + name + "` "@ + "missing width"@)
    } else if m.width->0 < 0 {
        Some("mode for output `"@ + name + "` "@ + "has negative width"@)
    } else if m.height is None {
        Some("mode for output `"@ + name + "` "@ + "missing height"@)
    } else if m.height->0 < 0 {
        Some("mode for output `"@ + name + "` "@ + "has negative height"@)
    } else if m.refresh_mhz is None {
        Some("mode for output `"@ + name + "` "@ + "missing refresh rate"@)
    } else {
        None
    }
}

/// A refresh rate in millihertz, read into hundredths of a hertz with
/// rounding half away from zero.
pub open spec fn spec_mhz_to_centihz(mhz: int) -> int {
    if mhz >= 0 {
        (mhz + 5) / 10
    } else {
        -((-mhz + 5) / 10)
    }
}

/// The validated mode a reported mode converts to, when it has no issue.
pub open spec fn spec_mode_conv(m: HeadModeSnapshot) -> ModeSnapshot {
    ModeSnapshot {
        width: m.width->0 as u32,
        height: m.height->0 as u32,
        refresh_centihz: spec_mhz_to_centihz(m.refresh_mhz->0 as int) as i64,
        preferred: m.preferred,
        current: m.current,
    }
}

/// The validated modes of output `name` from index `k` on, or the first
/// issue found.
pub open spec fn spec_modes_conv(name: Seq<char>, modes: Seq<HeadModeSnapshot>, k: int) -> Result<
    Seq<ModeSnapshot>,
    Seq<char>,
>
    decreases modes.len() - k,
    when 0 <= k <= modes.len()
{
    if k >= modes.len() {
        Ok(Seq::empty())
    } else {
        match spec_mode_issue(name, modes[k]) {
            Some(d) => Err(d),
            None => match spec_modes_conv(name, modes, k + 1) {
                Ok(rest) => Ok(seq![spec_mode_conv(modes[k])] + rest),
                Err(d) => Err(d),
            },
        }
    }
}

/// The snapshot one reported head converts to, or the first issue found.
pub open spec fn spec_head_conv(h: HeadView) -> Result<SnapView, Seq<char>> {
    let name = spec_head_name(h);
    match spec_modes_conv(name, h.modes, 0) {
        Err(d) => Err(d),
        Ok(ms) => Ok(
            SnapView {
                name,
                make: match h.make {
                    Some(m) => m,
                    None => Seq::empty(),
                },
                model: match h.model {
                    Some(m) => m,
                    None => Seq::empty(),
                },
                serial: h.serial,
                enabled: match h.enabled {
                    Some(e) => e,
                    None => false,
                },
                modes: ms,
                position: h.position,
                scale_centi: h.scale_centi,
                transform: h.transform,
            },
        ),
    }
}

/// The converted snapshots of the heads from index `i` on, in reported
/// order, or the first issue found.
pub open spec fn spec_heads_conv(hs: Seq<HeadView>, i: int) -> Result<Seq<SnapView>, Seq<char>>
    decreases hs.len() - i,
    when 0 <= i <= hs.len()
{
    if i >= hs.len() {
        Ok(Seq::empty())
    } else {
        match spec_head_conv(hs[i]) {
            Err(d) => Err(d),
            Ok(v) => match spec_heads_conv(hs, i + 1) {
                Ok(rest) => Ok(seq![v] + rest),
                Err(d) => Err(d),
            },
        }
    }
}

/// The whole conversion: every head validated and converted, then the
/// snapshots sorted by name.
pub open spec fn spec_build_outputs(hs: Seq<HeadView>) -> Result<Seq<SnapView>, Seq<char>> {
    match spec_heads_conv(hs, 0) {
        Ok(vs) => Ok(spec_sort_by_name(vs)),
        Err(d) => Err(d),
    }
}

fn mode_issue_error(name: &str, what: &str) -> (r: GenerateError)
    ensures
        r matches GenerateError::WaylandProtocolError { details } && details@ == "mode for output `"@
            + name@ + "` "@ + what@,
{
    let mut m: Vec<char> = Vec::new();
    push_str_chars(&mut m, "mode for output `");
    push_str_chars(&mut m, name);
    push_str_chars(&mut m, "` ");
    push_str_chars(&mut m, what);
    GenerateError::WaylandProtocolError { details: chars_to_string(&m) }
}

/// Converts one reported mode, or reports what it lacks.
fn convert_mode(name: &str, m: &HeadModeSnapshot) -> (r: Result<ModeSnapshot, GenerateError>)
    ensures
        match spec_mode_issue(name@, *m) {
            Some(d) => r matches Err(GenerateError::WaylandProtocolError { details }) && details@
                == d,
            None => r matches Ok(c) && c == spec_mode_conv(*m),
        },
{
    let width = match m.width {
        Some(w) => w,
        None => {
            return Err(mode_issue_error(name, "missing width"));
        },
    };
    if width < 0 {
        return Err(mode_issue_error(name, "has negative width"));
    }
    let height = match m.height {
        Some(h) => h,
        None => {
            return Err(mode_issue_error(name, "missing height"));
        },
    };
    if height < 0 {
        return Err(mode_issue_error(name, "has negative height"));
    }
    let mhz = match m.refresh_mhz {
        Some(r) => r,
        None => {
            return Err(mode_issue_error(name, "missing refresh rate"));
        },
    };
    let refresh_centihz: i64 = if mhz >= 0 {
        ((mhz as i64) + 5) / 10
    } else {
        -((-(mhz as i64) + 5) / 10)
    };
    Ok(
        ModeSnapshot {
            width: width as u32,
            height: height as u32,
            refresh_centihz,
            preferred: m.preferred,
            current: m.current,
        },
    )
}

/// Converts one reported head into a validated snapshot.
fn convert_head(h: &HeadSnapshot) -> (r: Result<OutputSnapshot, GenerateError>)
    ensures
        match spec_head_conv(h@) {
            Ok(v) => r matches Ok(o) && o@ == v,
            Err(d) => r matches Err(GenerateError::WaylandProtocolError { details }) && details@
                == d,
        },
{
    let name: String = match &h.name {
        Some(n) => n.clone(),
        None => {
            let chars = str_to_chars("<unknown>");
            chars_to_string(&chars)
        },
    };
    assert(name@ == spec_head_name(h@));
    let ghost gname = spec_head_name(h@);
    let mut modes: Vec<ModeSnapshot> = Vec::new();
    let mut k: usize = 0;
    let n = h.modes.len();
    while k < n
        invariant
            0 <= k <= n,
            n == h.modes.len(),
            name@ == spec_head_name(h@),
            gname == spec_head_name(h@),
            spec_modes_conv(gname, h@.modes, k as int) matches Ok(rest) ==> (spec_modes_conv(
                gname,
                h@.modes,
                0,
            ) matches Ok(whole) && whole == modes@ + rest),
            spec_modes_conv(gname, h@.modes, k as int) matches Err(d) ==> spec_modes_conv(
                gname,
                h@.modes,
                0,
            ) == spec_modes_conv(gname, h@.modes, k as int),
        decreases n - k,
    {
        let ghost ok = k as int;
        let converted = convert_mode(name.as_str(), &h.modes[k]);
        match converted {
            Ok(c) => {
                modes.push(c);
            },
            Err(e) => {
                proof {
                    assert(spec_modes_conv(gname, h@.modes, ok) matches Err(d)
                        && e matches GenerateError::WaylandProtocolError { details } && details@
                        == d);
                }
                return Err(e);
            },
        }
        k = k + 1;
        proof {
            match spec_modes_conv(gname, h@.modes, k as int) {
                Ok(rest) => {
                    assert(spec_modes_conv(gname, h@.modes, ok) matches Ok(w) && w == seq![
                        spec_mode_conv(h@.modes[ok]),
                    ] + rest);
                    match spec_modes_conv(gname, h@.modes, 0) {
                        Ok(whole) => {
                            assert(whole =~= modes@ + rest);
                        },
                        Err(_) => {},
                    }
                },
                Err(_) => {},
            }
        }
    }
    assert(spec_modes_conv(gname, h@.modes, n as int) == Ok::<Seq<ModeSnapshot>, Seq<char>>(
        Seq::empty(),
    ));
    proof {
        match spec_modes_conv(gname, h@.modes, 0) {
            Ok(whole) => {
                assert(whole =~= modes@);
            },
            Err(_) => {
                assert(false);
            },
        }
    }
    let make: String = match &h.make {
        Some(m) => m.clone(),
        None => String::new(),
    };
    let model: String = match &h.model {
        Some(m) => m.clone(),
        None => String::new(),
    };
    let serial: Option<String> = match &h.serial {
        Some(s) => Some(s.clone()),
        None => None,
    };
    let enabled: bool = match h.enabled {
        Some(e) => e,
        None => false,
    };
    let transform: Option<String> = match &h.transform {
        Some(t) => Some(t.clone()),
        None => None,
    };
    Ok(
        OutputSnapshot {
            name,
            make,
            model,
            serial,
            enabled,
            modes,
            position: h.position,
            scale_centi: h.scale_centi,
            transform,
        },
    )
}

/// Builds the validated, name-sorted output snapshots of the reported
/// heads, or reports the first protocol issue found.
pub fn build_output_snapshots(heads: &Vec<HeadSnapshot>) -> (r: Result<
    Vec<OutputSnapshot>,
    GenerateError,
>)
    ensures
        match spec_build_outputs(spec_heads_view(heads@)) {
            Ok(vs) => r matches Ok(out) && spec_snaps_view(out@) == vs,
            Err(d) => r matches Err(GenerateError::WaylandProtocolError { details }) && details@
                == d,
        },
{
    let ghost hs = spec_heads_view(heads@);
    let mut sorted: Vec<OutputSnapshot> = Vec::new();
    let ghost mut acc: Seq<SnapView> = Seq::empty();
    let mut i: usize = 0;
    let n = heads.len();
    while i < n
        invariant
            0 <= i <= n,
            n == heads.len(),
            hs == spec_heads_view(heads@),
            hs.len() == n,
            spec_heads_conv(hs, i as int) matches Ok(rest) ==> (spec_heads_conv(hs, 0) matches Ok(
                whole,
            ) && whole == acc + rest),
            spec_heads_conv(hs, i as int) matches Err(d) ==> spec_heads_conv(hs, 0)
                == spec_heads_conv(hs, i as int),
            spec_snaps_view(sorted@) == spec_sort_by_name(acc),
        decreases n - i,
    {
        let ghost oi = i as int;
        assert(hs[oi] == heads@[oi]@);
        let converted = convert_head(&heads[i]);
        let o = match converted {
            Ok(o) => o,
            Err(e) => {
                proof {
                    assert(spec_heads_conv(hs, oi) matches Err(d)
                        && e matches GenerateError::WaylandProtocolError { details } && details@
                        == d);
                }
                return Err(e);
            },
        };
        // find the insertion position, scanning back over greater names
        let mut j: usize = sorted.len();
        while j > 0 && !lex_le_str(sorted[j - 1].name.as_str(), o.name.as_str())
            invariant
                0 <= j <= sorted.len(),
                forall|k: int|
                    j <= k < sorted@.len() ==> !spec_lex_le(
                        spec_snaps_view(sorted@)[k].name,
                        o@.name,
                    ),
            decreases j,
        {
            assert(spec_snaps_view(sorted@)[j - 1].name == sorted@[j - 1]@.name);
            j = j - 1;
        }
        let ghost old_sorted = spec_snaps_view(sorted@);
        proof {
            if j > 0 {
                assert(spec_lex_le(old_sorted[j as int - 1].name, o@.name));
            }
            lemma_insert_by_name_at(old_sorted, o@, j as int);
        }
        let ghost ov = o@;
        sorted.insert(j, o);
        i = i + 1;
        proof {
            assert(spec_snaps_view(sorted@) =~= old_sorted.insert(j as int, ov));
            let new_acc = acc.push(ov);
            assert(new_acc.drop_last() =~= acc);
            assert(spec_sort_by_name(new_acc) == spec_insert_by_name(spec_sort_by_name(acc), ov));
            acc = new_acc;
            match spec_heads_conv(hs, i as int) {
                Ok(rest) => {
                    assert(spec_heads_conv(hs, oi) matches Ok(w) && w == seq![ov] + rest);
                    match spec_heads_conv(hs, 0) {
                        Ok(whole) => {
                            assert(whole =~= acc + rest);
                        },
                        Err(_) => {},
                    }
                },
                Err(_) => {},
            }
        }
    }
    proof {
        assert(spec_heads_conv(hs, n as int) == Ok::<Seq<SnapView>, Seq<char>>(Seq::empty()));
        match spec_heads_conv(hs, 0) {
            Ok(whole) => {
                assert(whole =~= acc);
            },
            Err(_) => {
                assert(false);
            },
        }
    }
    Ok(sorted)
}

} // verus!
