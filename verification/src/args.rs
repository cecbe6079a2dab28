use vstd::prelude::*;

verus! {

/// The command-line switches the gateway understands. Parsing the real
/// command line happens outside the library; the decision on what the
/// switches mean is taken here.
#[derive(Clone, Copy, Debug, PartialEq, Eq, Structural, Default)]
pub struct DakiaArgs {
    /// Print the version and stop.
    pub version: bool,
    /// Ask a running instance to reload its configuration.
    pub reload: bool,
    /// Run with debug output.
    pub debug: bool,
    /// Validate the configuration and stop.
    pub test: bool,
}

/// What the process should do after looking at its arguments.
#[derive(Clone, Copy, Debug, PartialEq, Eq, Structural)]
pub enum ArgAction {
    /// Stop now: the switch asked for a one-shot action.
    Exit,
    /// Go on and serve traffic.
    Proceed,
}

/// Decides whether the process serves traffic or stops after a one-shot
/// switch: any of `version`, `reload`, `debug` or `test` stops it.
pub fn process_args(args: &DakiaArgs) -> (r: ArgAction)
    ensures
        r == ArgAction::Exit <==> (args.version || args.reload || args.debug || args.test),
{
    if args.version || args.reload || args.debug || args.test {
        ArgAction::Exit
    } else {
        ArgAction::Proceed
    }
}

} // verus!
