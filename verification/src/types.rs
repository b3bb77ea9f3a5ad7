//! Result types of the mobile runner.
use vstd::prelude::*;

verus! {

/// Mobile-runner lifecycle phase (iv = Holder Update, v = Presentation,
/// vi = Verification).
#[derive(Debug, Clone, Copy, PartialEq, Eq, Structural)]
pub enum Phase {
    HolderUpdate,
    Presentation,
    Verification,
}

/// The roman numeral of a phase in the six-phase lifecycle.
pub open spec fn phase_label(p: Phase) -> Seq<char> {
    match p {
        Phase::HolderUpdate => seq!['i', 'v'],
        Phase::Presentation => seq!['v'],
        Phase::Verification => seq!['v', 'i'],
    }
}

impl Phase {
    /// The phase's roman numeral: "iv", "v" or "vi".
    pub fn as_str(self) -> (r: &'static str)
        ensures
            r@ == phase_label(self),
    {
        match self {
            Phase::HolderUpdate => {
                let s = "iv";
                proof {
                    reveal_strlit("iv");
                }
                s
            },
            Phase::Presentation => {
                let s = "v";
                proof {
                    reveal_strlit("v");
                }
                s
            },
            Phase::Verification => {
                let s = "vi";
                proof {
                    reveal_strlit("vi");
                }
                s
            },
        }
    }
}

} // verus!
