use vstd::prelude::*;

verus! {

/// The startup options: a namespace to look in, or none for the default one.
pub struct Args {
    pub namespace: Option<String>,
}

impl Args {
    /// The options from the values read off the command line.
    pub fn collect(namespace: Option<String>) -> (r: Args)
        ensures
            r.namespace == namespace,
    {
        Args { namespace }
    }
}

} // verus!
