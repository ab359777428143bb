//! The builtin dispatcher: a fixed, small table of command names that must
//! execute inside the interpreter's own process instead of being spawned.
//! The table currently holds one entry, the directory change.
//!
//! The library decides *what* a builtin stage asks for; actually entering a
//! directory mutates process-wide state and is left to the caller, which
//! reports failure as [`crate::errors::Error::Builtin`].

use vstd::prelude::*;

verus! {

/// What the directory-change builtin targets: the caller's home directory
/// when no argument is given, the named path otherwise.
#[derive(Debug, PartialEq)]
pub enum CdTarget {
    Home,
    Path(String),
}

/// Specification-level view of [`CdTarget`].
pub ghost enum CdTargetV {
    Home,
    Path(Seq<char>),
}

impl View for CdTarget {
    type V = CdTargetV;

    open spec fn view(&self) -> CdTargetV {
        match self {
            CdTarget::Home => CdTargetV::Home,
            CdTarget::Path(p) => CdTargetV::Path(p@),
        }
    }
}

/// True when the argument vector names a builtin: recognition is by exact
/// match of the command name against the table, which holds only `cd`.
pub open spec fn spec_is_builtin(args: Seq<Seq<char>>) -> bool {
    args.len() >= 1 && args[0] == "cd"@
}

/// The directory a `cd` argument vector targets.
pub open spec fn spec_cd_target(args: Seq<Seq<char>>) -> CdTargetV {
    if args.len() == 1 {
        CdTargetV::Home
    } else {
        CdTargetV::Path(args[1])
    }
}

/// Decide the directory-change target from a `cd` argument vector: with no
/// argument the caller's home directory, with an argument that path.
pub fn cd(args: &[String]) -> (t: CdTarget)
    requires
        args@.len() >= 1,
    ensures
        t@ == spec_cd_target(args.deep_view()),
{
    if args.len() == 1 {
        CdTarget::Home
    } else {
        let p = args[1].clone();
        proof {
            assert(args.deep_view()[1] == args@[1]@);
        }
        CdTarget::Path(p)
    }
}

/// Recognize a builtin stage. `Some` carries what must run inside the
/// interpreter; `None` means the stage is an external program.
pub fn exec(argument_list: &[String]) -> (r: Option<CdTarget>)
    requires
        argument_list@.len() >= 1,
    ensures
        match r {
            Some(t) => spec_is_builtin(argument_list.deep_view()) && t@ == spec_cd_target(
                argument_list.deep_view(),
            ),
            None => !spec_is_builtin(argument_list.deep_view()),
        },
{
    let cd_name: String = "cd".to_owned();
    proof {
        assert(argument_list.deep_view()[0] == argument_list@[0]@);
    }
    if argument_list[0] == cd_name {
        Some(cd(argument_list))
    } else {
        None
    }
}

} // verus!
