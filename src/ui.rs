use vstd::prelude::*;

verus! {

/// The key bindings shown in the footer, as (keys, action) pairs ordered by keys.
pub fn command_list() -> (r: Vec<(&'static str, &'static str)>)
    ensures
        r@.len() == 3,
        r@[0].0@ == "Arrows (←↑→↓)"@ && r@[0].1@ == "Move around"@,
        r@[1].0@ == "Enter"@ && r@[1].1@ == "Toggle port forwarding"@,
        r@[2].0@ == "q"@ && r@[2].1@ == "Quit"@,
{
    let mut r: Vec<(&'static str, &'static str)> = Vec::new();
    r.push(("Arrows (←↑→↓)", "Move around"));
    r.push(("Enter", "Toggle port forwarding"));
    r.push(("q", "Quit"));
    r
}

} // verus!
