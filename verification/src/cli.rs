//! Command-line options: which flags were given, and what follows a flag.
//!
//! The program reads its argument list once and hands it here, so there is a
//! single place that says what the program accepts. Whether a run is
//! unattended is derived from the modes rather than listed separately: a new
//! mode that forgot to add itself to a hand-written list would sit at the
//! title screen forever and look like a hang.
use vstd::prelude::*;
use vstd::string::StringExecFns;

verus! {

/// Which capture and automation modes were asked for.
#[derive(Copy, Clone, Debug, Default, PartialEq, Eq, Structural)]
pub struct RunModes {
    /// `--shot <path>`: render one settled frame and quit.
    pub shot: bool,
    /// `--vista`: stand on high ground and look out.
    pub vista: bool,
    /// `--demo`: carve a hemisphere ahead of the camera before capturing.
    pub demo: bool,
    /// `--models`: line the mobs up on a platform.
    pub models_review: bool,
    /// `--ui <which>`: open a named panel before capturing.
    pub ui_demo: bool,
    /// `--model <which>`: pose one named model before capturing.
    pub model_demo: bool,
    /// `--gauntlet`: let the robot play.
    pub gauntlet: bool,
    /// `--map <path>`: write a top-down map of the surface and quit.
    pub map: bool,
    /// `--title`: show the menu even in a mode that would normally skip it.
    pub force_title: bool,
}

impl RunModes {
    /// True when nobody is at the keyboard, so the title screen is skipped
    /// and simulation begins immediately.
    pub fn automated(&self) -> (r: bool)
        ensures
            r == (!self.force_title && (self.shot || self.vista || self.demo || self.models_review
                || self.ui_demo || self.model_demo || self.gauntlet || self.map)),
    {
        !self.force_title && (self.shot || self.vista || self.demo || self.models_review
            || self.ui_demo || self.model_demo || self.gauntlet || self.map)
    }
}

/// Some argument is exactly `name`.
pub open spec fn flag_given(args: Seq<String>, name: Seq<char>) -> bool {
    exists|i: int| 0 <= i < args.len() && (#[trigger] args[i])@ == name
}

/// The first position holding `name`, if any.
pub open spec fn first_position(args: Seq<String>, name: Seq<char>, from: int) -> Option<int>
    decreases args.len() - from,
{
    if from < 0 || from >= args.len() {
        None
    } else if args[from]@ == name {
        Some(from)
    } else {
        first_position(args, name, from + 1)
    }
}

/// Whether the flag `name` was given.
pub fn has_flag(args: &Vec<String>, name: &str) -> (r: bool)
    ensures
        r == flag_given(args@, name@),
{
    let target = String::from_str(name);
    let mut i: usize = 0;
    while i < args.len()
        invariant
            i <= args@.len(),
            target@ == name@,
            forall|j: int| 0 <= j < i ==> (#[trigger] args@[j])@ != name@,
        decreases args@.len() - i,
    {
        if args[i] == target {
            return true;
        }
        i = i + 1;
    }
    false
}

/// The argument right after the first `name`: `--seed 7` gives `7`. `None`
/// when the flag is absent or is the last argument.
pub fn value_after(args: &Vec<String>, name: &str) -> (r: Option<String>)
    ensures
        r == (match first_position(args@, name@, 0) {
            Some(i) => if i + 1 < args@.len() {
                Some(args@[i + 1])
            } else {
                None
            },
            None => None,
        }),
{
    let target = String::from_str(name);
    let mut i: usize = 0;
    while i < args.len()
        invariant
            i <= args@.len(),
            target@ == name@,
            first_position(args@, name@, 0) == first_position(args@, name@, i as int),
        decreases args@.len() - i,
    {
        if args[i] == target {
            if i + 1 < args.len() {
                return Some(args[i + 1].clone());
            }
            return None;
        }
        i = i + 1;
    }
    None
}

} // verus!
