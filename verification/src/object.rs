use vstd::prelude::*;
use crate::expiration::Expiration;

verus! {

/// A storable object, represented as a tagged record: a stable type-identity
/// string used for key namespacing, a string-keyed field map carrying the
/// object's serialized state, and the type's optional default time-to-live
/// in seconds.
pub struct CacheObject {
    pub model_name: String,
    pub fields: Vec<(String, String)>,
    pub default_ttl: Option<usize>,
}

/// The mathematical value of a `CacheObject`.
pub struct ObjModel {
    pub model_name: Seq<char>,
    pub fields: Seq<(Seq<char>, Seq<char>)>,
    pub default_ttl: Option<usize>,
}

impl View for CacheObject {
    type V = ObjModel;

    open spec fn view(&self) -> ObjModel {
        ObjModel {
            model_name: self.model_name@,
            fields: self.fields@.map_values(|p: (String, String)| (p.0@, p.1@)),
            default_ttl: self.default_ttl,
        }
    }
}

impl CacheObject {
    /// An identical, independently owned object.
    pub fn duplicate(&self) -> (r: CacheObject)
        ensures
            r@ == self@,
    {
        let mut v: Vec<(String, String)> = Vec::new();
        let mut i: usize = 0;
        while i < self.fields.len()
            invariant
                i <= self.fields@.len(),
                v@.len() == i,
                forall|j: int| 0 <= j < i ==> v@[j] == self.fields@[j],
            decreases self.fields@.len() - i,
        {
            let f = self.fields[i].0.clone();
            let w = self.fields[i].1.clone();
            v.push((f, w));
            i += 1;
        }
        proof {
            assert(v@ =~= self.fields@);
        }
        let r = CacheObject {
            model_name: self.model_name.clone(),
            fields: v,
            default_ttl: self.default_ttl,
        };
        r
    }
}

/// One entry of the typed object store: the stored object and its optional
/// expiration stamp.
pub struct StoredEntry {
    pub obj: CacheObject,
    pub exp: Option<Expiration>,
}

/// The mathematical value of a stored entry.
pub struct EntryModel {
    pub obj: ObjModel,
    pub exp: Option<Expiration>,
}

impl View for StoredEntry {
    type V = EntryModel;

    open spec fn view(&self) -> EntryModel {
        EntryModel { obj: self.obj@, exp: self.exp }
    }
}

} // verus!
