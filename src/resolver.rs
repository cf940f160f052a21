use vstd::prelude::*;
use vstd::string::*;

verus! {

/// Whether `name` begins with `service`.
pub open spec fn has_prefix(name: Seq<char>, service: Seq<char>) -> bool {
    service.len() <= name.len() && name.take(service.len() as int) == service
}

fn starts_with(name: &String, service: &String) -> (r: bool)
    ensures
        r == has_prefix(name@, service@),
{
    let n = name.as_str().unicode_len();
    let m = service.as_str().unicode_len();
    if m > n {
        return false;
    }
    let mut i: usize = 0;
    while i < m
        invariant
            m == service@.len(),
            n == name@.len(),
            m <= n,
            i <= m,
            name@.take(i as int) == service@.take(i as int),
        decreases m - i,
    {
        if name.as_str().get_char(i) != service.as_str().get_char(i) {
            assert(name@.take(m as int)[i as int] != service@[i as int]);
            return false;
        }
        assert(name@.take(i as int + 1) =~= service@.take(i as int + 1));
        i += 1;
    }
    assert(service@.take(m as int) =~= service@);
    true
}

/// The pod that serves `service`: the first one whose name begins with the
/// service's name. A pod of another service whose name happens to begin the
/// same way can be picked as well.
pub fn pod_for_service(pod_names: &Vec<String>, service: &String) -> (r: Option<usize>)
    ensures
        r is Some ==> r->0 < pod_names@.len() && has_prefix(pod_names@[r->0 as int]@, service@)
            && forall|j: int| 0 <= j < r->0 ==> !has_prefix(#[trigger] pod_names@[j]@, service@),
        r is None ==> forall|j: int|
            0 <= j < pod_names@.len() ==> !has_prefix(#[trigger] pod_names@[j]@, service@),
{
    let mut i: usize = 0;
    while i < pod_names.len()
        invariant
            i <= pod_names@.len(),
            forall|j: int| 0 <= j < i ==> !has_prefix(#[trigger] pod_names@[j]@, service@),
        decreases pod_names@.len() - i,
    {
        if starts_with(&pod_names[i], service) {
            return Some(i);
        }
        i += 1;
    }
    None
}

} // verus!
