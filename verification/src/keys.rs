use vstd::prelude::*;
use vstd::string::StringExecFns;

verus! {

/// The namespaced storage key: the type identity, a colon, then the
/// caller-supplied key. Namespacing keeps two types that happen to share a
/// caller key from colliding in the object store.
pub open spec fn spec_gen_key(model_name: Seq<char>, key: Seq<char>) -> Seq<char> {
    model_name + seq![':'] + key
}

/// Derives the namespaced storage key for an object of the given type
/// identity. Deterministic and total.
pub fn gen_key(model_name: &str, key: &str) -> (r: String)
    ensures
        r@ == spec_gen_key(model_name@, key@),
{
    let mut r = model_name.to_owned();
    r.append(":");
    r.append(key);
    proof {
        reveal_strlit(":");
        assert(r@ =~= spec_gen_key(model_name@, key@));
    }
    r
}

} // verus!
