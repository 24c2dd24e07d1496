//! Start-up decisions of the standalone host: command-line options and the
//! device-list positions of the resolved devices.
use vstd::prelude::*;

use crate::device::{find_device_by_id, DeviceInfo};

verus! {

/// Options given on the command line.
pub struct CliOpts {
    /// `--ramp`: long smoothing so the gain ramp is audible.
    pub ramp_test: bool,
    /// `--input <name>`: input device name to look for.
    pub input_device_name: Option<String>,
    /// `--output <name>`: output device name to look for.
    pub output_device_name: Option<String>,
}

/// `p` is the first position of `flag` among `args`.
pub open spec fn first_flag(args: Seq<String>, flag: Seq<char>, p: int) -> bool {
    0 <= p < args.len() && args[p]@ == flag && forall|j: int|
        0 <= j < p ==> (#[trigger] args[j])@ != flag
}

/// Some argument is exactly `flag`.
pub open spec fn has_flag(args: Seq<String>, flag: Seq<char>) -> bool {
    exists|i: int| 0 <= i < args.len() && (#[trigger] args[i])@ == flag
}

/// `value` is what follows the first `flag`: the argument after it, or
/// nothing when the flag is absent or last.
pub open spec fn flag_value_is(args: Seq<String>, flag: Seq<char>, value: Option<String>) -> bool {
    match value {
        Some(v) => exists|p: int| first_flag(args, flag, p) && p + 1 < args.len() && v@ == args[p
            + 1]@,
        None => forall|p: int| first_flag(args, flag, p) ==> p + 1 >= args.len(),
    }
}

fn find_flag(args: &[String], flag: &String) -> (r: Option<usize>)
    ensures
        match r {
            Some(p) => first_flag(args@, flag@, p as int),
            None => !has_flag(args@, flag@),
        },
{
    let mut i: usize = 0;
    while i < args.len()
        invariant
            i <= args@.len(),
            forall|j: int| 0 <= j < i ==> (#[trigger] args@[j])@ != flag@,
        decreases args@.len() - i,
    {
        if args[i] == *flag {
            return Some(i);
        }
        i = i + 1;
    }
    None
}

fn value_after_flag(args: &[String], flag: &String) -> (r: Option<String>)
    ensures
        flag_value_is(args@, flag@, r),
{
    match find_flag(args, flag) {
        Some(p) => {
            if p < args.len() - 1 {
                Some(args[p + 1].clone())
            } else {
                proof {
                    assert forall|q: int| first_flag(args@, flag@, q) implies q + 1 >= args@.len() by {
                        if q < p {
                            assert(args@[q]@ != flag@);
                        } else if p < q {
                            assert(args@[p as int]@ != flag@);
                        }
                    }
                }
                None
            }
        },
        None => None,
    }
}

/// Parse the command line (program name included or not): `--ramp` anywhere
/// turns the ramp test on; `--input` and `--output` take the argument that
/// follows their first occurrence.
pub fn parse_cli_args(args: &[String]) -> (r: CliOpts)
    ensures
        r.ramp_test == has_flag(args@, "--ramp"@),
        flag_value_is(args@, "--input"@, r.input_device_name),
        flag_value_is(args@, "--output"@, r.output_device_name),
{
    let ramp_flag = String::from_str("--ramp");
    let input_flag = String::from_str("--input");
    let output_flag = String::from_str("--output");
    let ramp_test = match find_flag(args, &ramp_flag) {
        Some(p) => true,
        None => false,
    };
    CliOpts {
        ramp_test,
        input_device_name: value_after_flag(args, &input_flag),
        output_device_name: value_after_flag(args, &output_flag),
    }
}

/// Position of the device with identity `id` in `list`, or 0 when the id is
/// unknown or absent.
pub fn find_device_index(list: &[DeviceInfo], id: &Option<String>) -> (r: usize)
    ensures
        match id {
            Some(s) => if exists|j: int| 0 <= j < list@.len() && (#[trigger] list@[j]).id_string@ == s@ {
                r < list@.len() && list@[r as int].id_string@ == s@ && forall|j: int|
                    0 <= j < r ==> (#[trigger] list@[j]).id_string@ != s@
            } else {
                r == 0
            },
            None => r == 0,
        },
{
    match id {
        Some(s) => match find_device_by_id(list, s) {
            Some(i) => i,
            None => 0,
        },
        None => 0,
    }
}

} // verus!
