use vstd::prelude::*;
use vstd::string::StrSliceExecFns;
use vstd::string::StringExecFns;
use crate::keys::spec_gen_key;

verus! {

/// Derives the remote backend's storage key: the same derivation as
/// `gen_key`, so both backends address identical logical entries.
pub fn redis_key_create(model_name: &str, key: &str) -> (r: String)
    ensures
        r@ == spec_gen_key(model_name@, key@),
{
    let mut r = String::from_str(model_name);
    r.append(":");
    r.append(key);
    proof {
        reveal_strlit(":");
        assert(r@ =~= spec_gen_key(model_name@, key@));
    }
    r
}

/// The position of the first colon at or after `from`, or -1 if none.
pub open spec fn spec_first_colon_at(s: Seq<char>, from: int) -> int
    decreases s.len() - from,
{
    if from < 0 || from >= s.len() {
        -1
    } else if s[from] == ':' {
        from
    } else {
        spec_first_colon_at(s, from + 1)
    }
}

/// Finds the first colon at or after `from`.
pub fn find_colon_from(s: &str, from: usize) -> (r: Option<usize>)
    requires
        from <= s@.len(),
    ensures
        match r {
            Some(i) => from <= i < s@.len() && i == spec_first_colon_at(s@, from as int),
            None => spec_first_colon_at(s@, from as int) == -1,
        },
{
    let n = s.unicode_len();
    let mut i: usize = from;
    while i < n
        invariant
            from <= i <= n,
            n == s@.len(),
            spec_first_colon_at(s@, from as int) == spec_first_colon_at(s@, i as int),
        decreases n - i,
    {
        let c = s.get_char(i);
        if c == ':' {
            return Some(i);
        }
        i += 1;
    }
    None
}

/// Splits a host designation "name[:port[:rest]]" into the name before the
/// first colon and, when a first colon exists, the text between the first
/// and second colons (or to the end when there is no second colon).
pub fn split_host(host: &str) -> (r: (String, Option<String>))
    ensures
        ({
            let h = host@;
            let i = spec_first_colon_at(h, 0);
            if i == -1 {
                r.0@ == h && r.1 is None
            } else {
                let j = spec_first_colon_at(h, i + 1);
                r.0@ == h.subrange(0, i) && (r.1 matches Some(p) && p@ == (if j == -1 {
                    h.subrange(i + 1, h.len() as int)
                } else {
                    h.subrange(i + 1, j)
                }))
            }
        }),
{
    let n = s_len(host);
    match find_colon_from(host, 0) {
        None => (host.to_owned(), None),
        Some(i) => {
            let name = host.substring_char(0, i);
            let port = match find_colon_from(host, i + 1) {
                None => host.substring_char(i + 1, n),
                Some(j) => host.substring_char(i + 1, j),
            };
            (name.to_owned(), Some(port.to_owned()))
        },
    }
}

/// The character length of a string slice.
fn s_len(s: &str) -> (r: usize)
    ensures
        r == s@.len(),
{
    s.unicode_len()
}

/// Picks the text of the first address marked as belonging to the wanted
/// family, from a list of (is-wanted, address-text) pairs.
pub fn pick_first_marked(addrs: &[(bool, String)]) -> (r: Option<String>)
    ensures
        match r {
            Some(s) => exists|i: int|
                #![auto]
                {
                    &&& 0 <= i < addrs@.len()
                    &&& addrs@[i].0
                    &&& s@ == addrs@[i].1@
                    &&& forall|j: int| 0 <= j < i ==> !(#[trigger] addrs@[j]).0
                },
            None => forall|i: int| 0 <= i < addrs@.len() ==> !(#[trigger] addrs@[i]).0,
        },
{
    let mut i: usize = 0;
    while i < addrs.len()
        invariant
            i <= addrs@.len(),
            forall|j: int| 0 <= j < i ==> !(#[trigger] addrs@[j]).0,
        decreases addrs@.len() - i,
    {
        if addrs[i].0 {
            return Some(addrs[i].1.clone());
        }
        i += 1;
    }
    None
}

/// The connection URL for the remote backend: the scheme, an optional
/// ":password@" authority prefix, the address text, and an optional
/// ":port" suffix.
pub open spec fn spec_redis_url(
    ip: Seq<char>,
    port: Option<Seq<char>>,
    password: Option<Seq<char>>,
) -> Seq<char> {
    let auth = match password {
        None => Seq::<char>::empty(),
        Some(p) => seq![':'] + p + seq!['@'],
    };
    let tail = match port {
        None => Seq::<char>::empty(),
        Some(p) => seq![':'] + p,
    };
    "redis://"@ + auth + ip + tail
}

/// Builds the connection URL for the remote backend.
pub fn redis_url(ip: &str, port: Option<&str>, password: Option<&str>) -> (r: String)
    ensures
        r@ == spec_redis_url(
            ip@,
            match port {
                None => None,
                Some(p) => Some(p@),
            },
            match password {
                None => None,
                Some(p) => Some(p@),
            },
        ),
{
    proof {
        reveal_strlit(":");
        reveal_strlit("@");
    }
    let mut r = String::from_str("redis://");
    match password {
        None => {},
        Some(p) => {
            r.append(":");
            r.append(p);
            r.append("@");
        },
    }
    r.append(ip);
    match port {
        None => {},
        Some(p) => {
            r.append(":");
            r.append(p);
        },
    }
    proof {
        assert(":"@ =~= seq![':']);
        assert("@"@ =~= seq!['@']);
        let pv = match port {
            None => None,
            Some(p) => Some(p@),
        };
        let wv = match password {
            None => None,
            Some(p) => Some(p@),
        };
        assert(r@ =~= spec_redis_url(ip@, pv, wv));
    }
    r
}

} // verus!
