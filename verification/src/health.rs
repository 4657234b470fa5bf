use vstd::prelude::*;

verus! {

/// Get the health status: a liveness probe, status 200 with body "OK".
pub fn get() -> (r: (u16, &'static str))
    ensures
        r.0 == 200,
        r.1@ == "OK"@,
{
    (200, "OK")
}

} // verus!
