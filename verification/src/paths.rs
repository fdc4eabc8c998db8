//! The path side of persistence that is pure computation: choosing the
//! default configuration path from the values of the two environment
//! variables, and naming the temporary file that an atomic write creates
//! beside its destination.

use vstd::prelude::*;
use crate::errors::GenerateError;
use crate::text::{
    chars_to_string,
    lemma_udec_digits,
    lemma_udec_injective,
    push_str_chars,
    push_u64_dec,
    spec_udec,
};

verus! {

/// The default configuration path for given environment values: under the
/// config home when it is set, under `.config` in the home directory
/// otherwise, and unavailable when neither is set.
pub fn default_config_path(xdg_config_home: Option<&str>, home: Option<&str>) -> (r: Result<
    String,
    GenerateError,
>)
    ensures
        match xdg_config_home {
            Some(x) => r matches Ok(p) && p@ == x@ + "/kanshi/config"@,
            None => match home {
                Some(h) => r matches Ok(p) && p@ == h@ + "/.config/kanshi/config"@,
                None => r matches Err(GenerateError::ConfigPathUnavailable),
            },
        },
{
    match xdg_config_home {
        Some(x) => {
            let mut out: Vec<char> = Vec::new();
            push_str_chars(&mut out, x);
            push_str_chars(&mut out, "/kanshi/config");
            Ok(chars_to_string(&out))
        },
        None => match home {
            Some(h) => {
                let mut out: Vec<char> = Vec::new();
                push_str_chars(&mut out, h);
                push_str_chars(&mut out, "/.config/kanshi/config");
                Ok(chars_to_string(&out))
            },
            None => Err(GenerateError::ConfigPathUnavailable),
        },
    }
}

/// The name of the temporary file an atomic write uses beside the
/// destination `file_name`, for a given process id and attempt counter.
pub open spec fn spec_temp_file_name(file_name: Seq<char>, pid: int, attempt: int) -> Seq<char> {
    "."@ + file_name + ".kanshi-generate."@ + spec_udec(pid) + "."@ + spec_udec(attempt) + ".tmp"@
}

/// Builds the temporary-file name for one write attempt.
pub fn temp_file_name(file_name: &str, pid: u64, attempt: u64) -> (r: String)
    ensures
        r@ == spec_temp_file_name(file_name@, pid as int, attempt as int),
{
    let mut out: Vec<char> = Vec::new();
    push_str_chars(&mut out, ".");
    push_str_chars(&mut out, file_name);
    push_str_chars(&mut out, ".kanshi-generate.");
    push_u64_dec(&mut out, pid);
    push_str_chars(&mut out, ".");
    push_u64_dec(&mut out, attempt);
    push_str_chars(&mut out, ".tmp");
    assert(out@ =~= spec_temp_file_name(file_name@, pid as int, attempt as int));
    chars_to_string(&out)
}

/// Distinct attempt counters name distinct temporary files, so retrying
/// with a fresh counter can never collide with an earlier attempt of the
/// same process on the same destination.
pub proof fn lemma_temp_file_name_unique(file_name: Seq<char>, pid: int, a1: int, a2: int)
    requires
        pid >= 0,
        a1 >= 0,
        a2 >= 0,
        spec_temp_file_name(file_name, pid, a1) == spec_temp_file_name(file_name, pid, a2),
    ensures
        a1 == a2,
{
    let prefix = "."@ + file_name + ".kanshi-generate."@ + spec_udec(pid) + "."@;
    let n1 = spec_temp_file_name(file_name, pid, a1);
    let n2 = spec_temp_file_name(file_name, pid, a2);
    assert(n1 =~= prefix + spec_udec(a1) + ".tmp"@);
    assert(n2 =~= prefix + spec_udec(a2) + ".tmp"@);
    lemma_udec_digits(a1);
    lemma_udec_digits(a2);
    assert(spec_udec(a1).len() == spec_udec(a2).len());
    assert forall|k: int| 0 <= k < spec_udec(a1).len() implies #[trigger] spec_udec(a1)[k]
        == spec_udec(a2)[k] by {
        assert(n1[prefix.len() + k] == spec_udec(a1)[k]);
        assert(n2[prefix.len() + k] == spec_udec(a2)[k]);
    }
    assert(spec_udec(a1) =~= spec_udec(a2));
    lemma_udec_injective(a1, a2);
}

/// The temporary file is never the destination itself: its name is longer
/// than the destination's.
pub proof fn lemma_temp_file_name_fresh(file_name: Seq<char>, pid: int, attempt: int)
    requires
        pid >= 0,
        attempt >= 0,
    ensures
        spec_temp_file_name(file_name, pid, attempt) != file_name,
{
    lemma_udec_digits(pid);
    lemma_udec_digits(attempt);
    assert(spec_temp_file_name(file_name, pid, attempt).len() > file_name.len());
}

} // verus!
