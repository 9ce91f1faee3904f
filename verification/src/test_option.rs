use vstd::prelude::*;

verus! {

/// Options of a test that has none.
#[derive(Debug, Clone, Copy, PartialEq, Eq, Structural)]
pub struct RunTestOption {}

impl Default for RunTestOption {
    fn default() -> (options: RunTestOption)
        ensures
            options == (RunTestOption {  }),
    {
        RunTestOption {  }
    }
}

} // verus!
