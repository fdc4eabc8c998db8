//! The in-memory shape of captured display-output state: outputs, their
//! modes and positions. Refresh rates and scales are held in hundredths
//! (centihertz, centiscale), the precision at which they are rendered.

use vstd::prelude::*;
use crate::text::{
    chars_eq_str,
    push_all,
    spec_trim,
    str_to_chars,
    trim_chars,
    trimmed_is_empty,
};

verus! {

/// One mode an output supports: pixel dimensions, refresh rate in
/// hundredths of a hertz, and whether the source flagged it preferred or
/// currently active.
#[derive(Debug, Clone, Copy, PartialEq, Eq, Structural)]
pub struct ModeSnapshot {
    pub width: u32,
    pub height: u32,
    pub refresh_centihz: i64,
    pub preferred: bool,
    pub current: bool,
}

/// The top-left position of an output in the global layout.
#[derive(Debug, Clone, Copy, PartialEq, Eq, Structural)]
pub struct PositionSnapshot {
    pub x: i32,
    pub y: i32,
}

/// One display output as captured from the collaborator: identifying
/// fields, enablement, the modes offered, and optional layout data. The
/// scale is held in hundredths.
#[derive(Debug, Clone)]
pub struct OutputSnapshot {
    pub name: String,
    pub make: String,
    pub model: String,
    pub serial: Option<String>,
    pub enabled: bool,
    pub modes: Vec<ModeSnapshot>,
    pub position: Option<PositionSnapshot>,
    pub scale_centi: Option<i64>,
    pub transform: Option<String>,
}

/// The mathematical view of an output snapshot.
pub ghost struct SnapView {
    pub name: Seq<char>,
    pub make: Seq<char>,
    pub model: Seq<char>,
    pub serial: Option<Seq<char>>,
    pub enabled: bool,
    pub modes: Seq<ModeSnapshot>,
    pub position: Option<PositionSnapshot>,
    pub scale_centi: Option<i64>,
    pub transform: Option<Seq<char>>,
}

impl View for OutputSnapshot {
    type V = SnapView;

    open spec fn view(&self) -> SnapView {
        SnapView {
            name: self.name@,
            make: self.make@,
            model: self.model@,
            serial: match self.serial {
                Some(s) => Some(s@),
                None => None,
            },
            enabled: self.enabled,
            modes: self.modes@,
            position: self.position,
            scale_centi: self.scale_centi,
            transform: match self.transform {
                Some(t) => Some(t@),
                None => None,
            },
        }
    }
}

/// The views of a sequence of snapshots.
pub open spec fn spec_snaps_view(s: Seq<OutputSnapshot>) -> Seq<SnapView> {
    s.map_values(|o: OutputSnapshot| o@)
}

// ---------------------------------------------------------------------------
// Identifier
// ---------------------------------------------------------------------------

/// The tail of a space-joined list, from segment `i` on: a space before
/// each remaining segment.
pub open spec fn spec_join_tail(parts: Seq<Seq<char>>, i: int) -> Seq<char>
    decreases parts.len() - i,
    when 0 <= i <= parts.len()
{
    if i >= parts.len() {
        Seq::empty()
    } else {
        seq![' '] + parts[i] + spec_join_tail(parts, i + 1)
    }
}

/// The segments joined by single spaces.
pub open spec fn spec_join_spaces(parts: Seq<Seq<char>>) -> Seq<char> {
    if parts.len() == 0 {
        Seq::empty()
    } else {
        parts[0] + spec_join_tail(parts, 1)
    }
}

/// The identifier segments of an output: make, model and serial, each kept
/// only if it holds more than whitespace.
pub open spec fn spec_identifier_parts(o: SnapView) -> Seq<Seq<char>> {
    let makes: Seq<Seq<char>> = if spec_trim(o.make).len() > 0 {
        seq![o.make]
    } else {
        seq![]
    };
    let models: Seq<Seq<char>> = if spec_trim(o.model).len() > 0 {
        seq![o.model]
    } else {
        seq![]
    };
    let serials: Seq<Seq<char>> = match o.serial {
        Some(se) => if spec_trim(se).len() > 0 {
            seq![se]
        } else {
            seq![]
        },
        None => seq![],
    };
    makes + models + serials
}

/// The quoted identifier of an output: make, model and serial joined by
/// spaces, falling back to the raw output name when all three are blank.
pub open spec fn spec_identifier(o: SnapView) -> Seq<char> {
    let parts = spec_identifier_parts(o);
    if parts.len() == 0 {
        o.name
    } else {
        spec_join_spaces(parts)
    }
}

// ---------------------------------------------------------------------------
// Active mode
// ---------------------------------------------------------------------------

/// The index of the first mode from `i` on flagged current, or the length.
pub open spec fn spec_first_current(modes: Seq<ModeSnapshot>, i: int) -> int
    decreases modes.len() - i,
    when 0 <= i <= modes.len()
{
    if i >= modes.len() {
        modes.len() as int
    } else if modes[i].current {
        i
    } else {
        spec_first_current(modes, i + 1)
    }
}

/// The index of the first mode from `i` on flagged preferred, or the length.
pub open spec fn spec_first_preferred(modes: Seq<ModeSnapshot>, i: int) -> int
    decreases modes.len() - i,
    when 0 <= i <= modes.len()
{
    if i >= modes.len() {
        modes.len() as int
    } else if modes[i].preferred {
        i
    } else {
        spec_first_preferred(modes, i + 1)
    }
}

/// The mode a profile line describes: the first mode flagged current, else
/// the first flagged preferred, else nothing.
pub open spec fn spec_active_mode(modes: Seq<ModeSnapshot>) -> Option<ModeSnapshot> {
    let c = spec_first_current(modes, 0);
    if c < modes.len() {
        Some(modes[c])
    } else {
        let p = spec_first_preferred(modes, 0);
        if p < modes.len() {
            Some(modes[p])
        } else {
            None
        }
    }
}

pub proof fn lemma_first_current_wf(modes: Seq<ModeSnapshot>, i: int)
    requires
        0 <= i <= modes.len(),
    ensures
        i <= spec_first_current(modes, i) <= modes.len(),
    decreases modes.len() - i,
{
    if i < modes.len() && !modes[i].current {
        lemma_first_current_wf(modes, i + 1);
    }
}

pub proof fn lemma_first_preferred_wf(modes: Seq<ModeSnapshot>, i: int)
    requires
        0 <= i <= modes.len(),
    ensures
        i <= spec_first_preferred(modes, i) <= modes.len(),
    decreases modes.len() - i,
{
    if i < modes.len() && !modes[i].preferred {
        lemma_first_preferred_wf(modes, i + 1);
    }
}

// ---------------------------------------------------------------------------
// Transform normalisation
// ---------------------------------------------------------------------------

/// ASCII lowercase of one character.
pub open spec fn spec_lower_char(c: char) -> char {
    if c == 'A' {
        'a'
    } else if c == 'B' {
        'b'
    } else if c == 'C' {
        'c'
    } else if c == 'D' {
        'd'
    } else if c == 'E' {
        'e'
    } else if c == 'F' {
        'f'
    } else if c == 'G' {
        'g'
    } else if c == 'H' {
        'h'
    } else if c == 'I' {
        'i'
    } else if c == 'J' {
        'j'
    } else if c == 'K' {
        'k'
    } else if c == 'L' {
        'l'
    } else if c == 'M' {
        'm'
    } else if c == 'N' {
        'n'
    } else if c == 'O' {
        'o'
    } else if c == 'P' {
        'p'
    } else if c == 'Q' {
        'q'
    } else if c == 'R' {
        'r'
    } else if c == 'S' {
        's'
    } else if c == 'T' {
        't'
    } else if c == 'U' {
        'u'
    } else if c == 'V' {
        'v'
    } else if c == 'W' {
        'w'
    } else if c == 'X' {
        'x'
    } else if c == 'Y' {
        'y'
    } else if c == 'Z' {
        'z'
    } else {
        c
    }
}

/// ASCII lowercase of a character sequence.
pub open spec fn spec_lower(s: Seq<char>) -> Seq<char> {
    s.map_values(|c: char| spec_lower_char(c))
}

fn lower_char(c: char) -> (r: char)
    ensures
        r == spec_lower_char(c),
{
    if 'A' <= c && c <= 'Z' {
        if c == 'A' {
            'a'
        } else if c == 'B' {
            'b'
        } else if c == 'C' {
            'c'
        } else if c == 'D' {
            'd'
        } else if c == 'E' {
            'e'
        } else if c == 'F' {
            'f'
        } else if c == 'G' {
            'g'
        } else if c == 'H' {
            'h'
        } else if c == 'I' {
            'i'
        } else if c == 'J' {
            'j'
        } else if c == 'K' {
            'k'
        } else if c == 'L' {
            'l'
        } else if c == 'M' {
            'm'
        } else if c == 'N' {
            'n'
        } else if c == 'O' {
            'o'
        } else if c == 'P' {
            'p'
        } else if c == 'Q' {
            'q'
        } else if c == 'R' {
            'r'
        } else if c == 'S' {
            's'
        } else if c == 'T' {
            't'
        } else if c == 'U' {
            'u'
        } else if c == 'V' {
            'v'
        } else if c == 'W' {
            'w'
        } else if c == 'X' {
            'x'
        } else if c == 'Y' {
            'y'
        } else {
            'z'
        }
    } else {
        c
    }
}

/// The canonical transform names, in the order their codes run.
pub open spec fn spec_transform_name(code: int) -> Seq<char> {
    if code == 0 {
        "normal"@
    } else if code == 1 {
        "90"@
    } else if code == 2 {
        "180"@
    } else if code == 3 {
        "270"@
    } else if code == 4 {
        "flipped"@
    } else if code == 5 {
        "flipped-90"@
    } else if code == 6 {
        "flipped-180"@
    } else {
        "flipped-270"@
    }
}

/// The canonical spelling of a transform given in text, compared after
/// trimming and ASCII lowercasing; unknown spellings have none.
pub open spec fn spec_normalize_transform(t: Seq<char>) -> Option<Seq<char>> {
    let k = spec_lower(spec_trim(t));
    if k == "normal"@ {
        Some("normal"@)
    } else if k == "90"@ {
        Some("90"@)
    } else if k == "180"@ {
        Some("180"@)
    } else if k == "270"@ {
        Some("270"@)
    } else if k == "flipped"@ {
        Some("flipped"@)
    } else if k == "flipped-90"@ {
        Some("flipped-90"@)
    } else if k == "flipped-180"@ {
        Some("flipped-180"@)
    } else if k == "flipped-270"@ {
        Some("flipped-270"@)
    } else {
        None
    }
}

/// Maps a transform code from the display protocol to its canonical name.
pub fn normalize_transform_u32(raw: u32) -> (r: Option<&'static str>)
    ensures
        match r {
            Some(t) => 0 <= raw <= 7 && t@ == spec_transform_name(raw as int),
            None => raw > 7,
        },
{
    if raw == 0 {
        Some("normal")
    } else if raw == 1 {
        Some("90")
    } else if raw == 2 {
        Some("180")
    } else if raw == 3 {
        Some("270")
    } else if raw == 4 {
        Some("flipped")
    } else if raw == 5 {
        Some("flipped-90")
    } else if raw == 6 {
        Some("flipped-180")
    } else if raw == 7 {
        Some("flipped-270")
    } else {
        None
    }
}

/// Canonicalises a transform spelling, case-insensitively.
pub fn normalize_transform_str(raw: &str) -> (r: Option<&'static str>)
    ensures
        match r {
            Some(t) => spec_normalize_transform(raw@) == Some(t@),
            None => spec_normalize_transform(raw@) is None,
        },
{
    let chars = str_to_chars(raw);
    let trimmed = trim_chars(&chars);
    let mut lowered: Vec<char> = Vec::new();
    let mut i: usize = 0;
    while i < trimmed.len()
        invariant
            0 <= i <= trimmed.len(),
            lowered@ == spec_lower(trimmed@.subrange(0, i as int)),
        decreases trimmed.len() - i,
    {
        lowered.push(lower_char(trimmed[i]));
        i = i + 1;
        assert(lowered@ =~= spec_lower(trimmed@.subrange(0, i as int)));
    }
    assert(trimmed@.subrange(0, trimmed@.len() as int) =~= trimmed@);
    if chars_eq_str(&lowered, "normal") {
        Some("normal")
    } else if chars_eq_str(&lowered, "90") {
        Some("90")
    } else if chars_eq_str(&lowered, "180") {
        Some("180")
    } else if chars_eq_str(&lowered, "270") {
        Some("270")
    } else if chars_eq_str(&lowered, "flipped") {
        Some("flipped")
    } else if chars_eq_str(&lowered, "flipped-90") {
        Some("flipped-90")
    } else if chars_eq_str(&lowered, "flipped-180") {
        Some("flipped-180")
    } else if chars_eq_str(&lowered, "flipped-270") {
        Some("flipped-270")
    } else {
        None
    }
}

impl OutputSnapshot {
    /// The identifier used in the quoted token of an `output` line: the
    /// non-blank ones of make, model and serial joined by spaces, or the raw
    /// output name when all are blank.
    pub fn identifier(&self) -> (r: Vec<char>)
        ensures
            r@ == spec_identifier(self@),
    {
        let mut parts: Vec<Vec<char>> = Vec::new();
        let make_chars = str_to_chars(self.make.as_str());
        if !trimmed_is_empty(&make_chars) {
            parts.push(make_chars);
        }
        let model_chars = str_to_chars(self.model.as_str());
        if !trimmed_is_empty(&model_chars) {
            parts.push(model_chars);
        }
        match &self.serial {
            Some(serial) => {
                let serial_chars = str_to_chars(serial.as_str());
                if !trimmed_is_empty(&serial_chars) {
                    parts.push(serial_chars);
                }
            },
            None => {},
        }
        let ghost gparts = spec_identifier_parts(self@);
        proof {
            assert(parts@.map_values(|v: Vec<char>| v@) =~= gparts);
        }
        if parts.len() == 0 {
            let r = str_to_chars(self.name.as_str());
            return r;
        }
        let mut out: Vec<char> = Vec::new();
        push_all(&mut out, &parts[0]);
        let mut i: usize = 1;
        while i < parts.len()
            invariant
                1 <= i <= parts.len(),
                parts@.map_values(|v: Vec<char>| v@) == gparts,
                gparts.len() == parts.len(),
                gparts.len() > 0,
                spec_join_spaces(gparts) == out@ + spec_join_tail(gparts, i as int),
            decreases parts.len() - i,
        {
            let ghost oi = i as int;
            out.push(' ');
            push_all(&mut out, &parts[i]);
            i = i + 1;
            proof {
                assert(gparts[oi] == parts@.map_values(|v: Vec<char>| v@)[oi]);
                assert(spec_join_tail(gparts, oi) == seq![' '] + gparts[oi] + spec_join_tail(
                    gparts,
                    oi + 1,
                ));
                assert(out@ + spec_join_tail(gparts, i as int) =~= spec_join_spaces(gparts));
            }
        }
        assert(spec_join_tail(gparts, i as int) == Seq::<char>::empty());
        assert(out@ =~= spec_join_spaces(gparts));
        out
    }

    /// The mode an enabled output is rendered with: the first flagged
    /// current, else the first flagged preferred.
    pub fn active_mode(&self) -> (r: Option<&ModeSnapshot>)
        ensures
            match r {
                Some(m) => spec_active_mode(self@.modes) == Some(*m),
                None => spec_active_mode(self@.modes) is None,
            },
    {
        let n = self.modes.len();
        let mut i: usize = 0;
        while i < n
            invariant
                0 <= i <= n,
                n == self.modes.len(),
                spec_first_current(self@.modes, 0) == spec_first_current(self@.modes, i as int),
            decreases n - i,
        {
            if self.modes[i].current {
                assert(spec_first_current(self@.modes, i as int) == i as int);
                return Some(&self.modes[i]);
            }
            i = i + 1;
            assert(spec_first_current(self@.modes, i as int - 1) == spec_first_current(
                self@.modes,
                i as int,
            ));
        }
        assert(spec_first_current(self@.modes, 0) == n as int);
        let mut k: usize = 0;
        while k < n
            invariant
                0 <= k <= n,
                n == self.modes.len(),
                spec_first_current(self@.modes, 0) == n as int,
                spec_first_preferred(self@.modes, 0) == spec_first_preferred(self@.modes, k as int),
            decreases n - k,
        {
            if self.modes[k].preferred {
                assert(spec_first_preferred(self@.modes, k as int) == k as int);
                return Some(&self.modes[k]);
            }
            k = k + 1;
            assert(spec_first_preferred(self@.modes, k as int - 1) == spec_first_preferred(
                self@.modes,
                k as int,
            ));
        }
        assert(spec_first_preferred(self@.modes, 0) == n as int);
        None
    }

    /// The canonical transform spelling of this output, if it has one the
    /// renderer recognises.
    pub fn normalized_transform(&self) -> (r: Option<&'static str>)
        ensures
            match (r, self@.transform) {
                (Some(t), Some(raw)) => spec_normalize_transform(raw) == Some(t@),
                (None, Some(raw)) => spec_normalize_transform(raw) is None,
                (None, None) => true,
                (Some(t), None) => false,
            },
    {
        match &self.transform {
            Some(raw) => normalize_transform_str(raw.as_str()),
            None => None,
        }
    }
}

// ---------------------------------------------------------------------------
// Ordering by name
// ---------------------------------------------------------------------------

/// Lexicographic order on names by code point, from index `i` on.
pub open spec fn spec_lex_le_from(a: Seq<char>, b: Seq<char>, i: int) -> bool
    decreases a.len() - i,
    when 0 <= i <= a.len()
{
    if i >= a.len() {
        true
    } else if i >= b.len() {
        false
    } else if a[i] < b[i] {
        true
    } else if b[i] < a[i] {
        false
    } else {
        spec_lex_le_from(a, b, i + 1)
    }
}

/// Lexicographic order on names by code point.
pub open spec fn spec_lex_le(a: Seq<char>, b: Seq<char>) -> bool {
    spec_lex_le_from(a, b, 0)
}

/// Decides the lexicographic order of two names.
pub fn lex_le_str(a: &str, b: &str) -> (r: bool)
    ensures
        r == spec_lex_le(a@, b@),
{
    let na: usize = a.unicode_len();
    let nb: usize = b.unicode_len();
    let mut i: usize = 0;
    loop
        invariant
            0 <= i <= na,
            na == a@.len(),
            nb == b@.len(),
            spec_lex_le(a@, b@) == spec_lex_le_from(a@, b@, i as int),
        decreases na - i,
    {
        if i >= na {
            return true;
        }
        if i >= nb {
            return false;
        }
        let ca = a.get_char(i);
        let cb = b.get_char(i);
        if ca < cb {
            return true;
        }
        if cb < ca {
            return false;
        }
        i = i + 1;
        assert(spec_lex_le_from(a@, b@, i as int - 1) == spec_lex_le_from(a@, b@, i as int));
    }
}

/// Insertion of one snapshot into a name-sorted sequence, after every
/// snapshot whose name is not greater.
pub open spec fn spec_insert_by_name(sorted: Seq<SnapView>, x: SnapView) -> Seq<SnapView>
    decreases sorted.len(),
{
    if sorted.len() == 0 {
        seq![x]
    } else if spec_lex_le(sorted.last().name, x.name) {
        sorted.push(x)
    } else {
        spec_insert_by_name(sorted.drop_last(), x).push(sorted.last())
    }
}

/// The stable name-sort of a snapshot sequence.
pub open spec fn spec_sort_by_name(s: Seq<SnapView>) -> Seq<SnapView>
    decreases s.len(),
{
    if s.len() == 0 {
        Seq::empty()
    } else {
        spec_insert_by_name(spec_sort_by_name(s.drop_last()), s.last())
    }
}

/// Inserting at the position the executable search finds is the insertion
/// the sort specifies.
pub proof fn lemma_insert_by_name_at(sorted: Seq<SnapView>, x: SnapView, j: int)
    requires
        0 <= j <= sorted.len(),
        j == 0 || spec_lex_le(sorted[j - 1].name, x.name),
        forall|k: int| j <= k < sorted.len() ==> !spec_lex_le((#[trigger] sorted[k]).name, x.name),
    ensures
        spec_insert_by_name(sorted, x) == sorted.insert(j, x),
    decreases sorted.len(),
{
    if sorted.len() == 0 {
        assert(spec_insert_by_name(sorted, x) =~= sorted.insert(0, x));
    } else if j == sorted.len() {
        assert(spec_lex_le(sorted.last().name, x.name));
        assert(sorted.push(x) =~= sorted.insert(j, x));
    } else {
        assert(!spec_lex_le(sorted[sorted.len() - 1].name, x.name));
        lemma_insert_by_name_at(sorted.drop_last(), x, j);
        assert(spec_insert_by_name(sorted, x) == spec_insert_by_name(sorted.drop_last(), x).push(
            sorted.last(),
        ));
        assert(sorted.drop_last().insert(j, x).push(sorted.last()) =~= sorted.insert(j, x));
    }
}


} // verus!
