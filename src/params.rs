use vstd::prelude::*;

use crate::text::str_equal;

verus! {

/// A query parameter that the proxy reads.
#[derive(Debug, Clone, Copy, PartialEq, Eq)]
pub enum Field {
    /// `app`: the application id.
    App,
    /// `u`: the upstream URL.
    U,
    /// `envId`: the environment id.
    EnvId,
    /// `tenId`: the tenant id.
    TenId,
    /// `modId`: the module id.
    ModId,
    /// `sesId`: the session id.
    SesId,
    /// `reqId`: the request id.
    ReqId,
    /// `api-version`: the upstream API version.
    ApiVersion,
}

/// The number of query parameters that the proxy reads.
pub const FIELD_COUNT: usize = 8;

/// The field at a position of the list of fields.
pub open spec fn field_at(k: int) -> Field {
    if k == 0 {
        Field::App
    } else if k == 1 {
        Field::U
    } else if k == 2 {
        Field::EnvId
    } else if k == 3 {
        Field::TenId
    } else if k == 4 {
        Field::ModId
    } else if k == 5 {
        Field::SesId
    } else if k == 6 {
        Field::ReqId
    } else {
        Field::ApiVersion
    }
}

/// The position of a field in the list of fields.
pub open spec fn index_of(f: Field) -> int {
    match f {
        Field::App => 0,
        Field::U => 1,
        Field::EnvId => 2,
        Field::TenId => 3,
        Field::ModId => 4,
        Field::SesId => 5,
        Field::ReqId => 6,
        Field::ApiVersion => 7,
    }
}

/// The query key of a field.
pub open spec fn key_of(f: Field) -> Seq<char> {
    match f {
        Field::App => "app"@,
        Field::U => "u"@,
        Field::EnvId => "envId"@,
        Field::TenId => "tenId"@,
        Field::ModId => "modId"@,
        Field::SesId => "sesId"@,
        Field::ReqId => "reqId"@,
        Field::ApiVersion => "api-version"@,
    }
}

/// How many of the pairs have the key `key`.
pub open spec fn key_count(pairs: Seq<(String, String)>, key: Seq<char>) -> nat
    decreases pairs.len(),
{
    if pairs.len() == 0 {
        0
    } else {
        key_count(pairs.drop_last(), key) + if pairs.last().0@ == key {
            1nat
        } else {
            0nat
        }
    }
}

/// The value of the first pair with the key `key`.
pub open spec fn lookup(pairs: Seq<(String, String)>, key: Seq<char>) -> Option<String>
    decreases pairs.len(),
{
    if pairs.len() == 0 {
        None
    } else if lookup(pairs.drop_last(), key) is Some {
        lookup(pairs.drop_last(), key)
    } else if pairs.last().0@ == key {
        Some(pairs.last().1)
    } else {
        None
    }
}

/// No parameter that the proxy reads is given twice.
pub open spec fn no_repeated_field(pairs: Seq<(String, String)>) -> bool {
    forall|f: Field| key_count(pairs, #[trigger] key_of(f)) <= 1
}

/// The query is accepted: no field is given twice, and the application id and the target URL
/// are given.
pub open spec fn query_accepted(pairs: Seq<(String, String)>) -> bool {
    &&& no_repeated_field(pairs)
    &&& key_count(pairs, key_of(Field::App)) == 1
    &&& key_count(pairs, key_of(Field::U)) == 1
}

/// Why a query string was refused.
#[derive(Debug, Clone, Copy, PartialEq, Eq)]
pub enum QueryError {
    /// A required parameter is absent.
    MissingField(Field),
    /// A parameter is given more than once.
    DuplicateField(Field),
}

/// The parameters of a proxied call, from its query string.
#[derive(Debug, Clone, PartialEq, Eq)]
pub struct ProxyUrlParams {
    /// The application id.
    pub app: String,
    /// The upstream URL that the call is sent to.
    pub u: String,
    pub env_id: Option<String>,
    pub ten_id: Option<String>,
    pub mod_id: Option<String>,
    pub ses_id: Option<String>,
    pub req_id: Option<String>,
    /// The upstream API version that the caller asked for.
    pub api_version: Option<String>,
}

/// The parameters of an accepted query.
pub open spec fn params_of(pairs: Seq<(String, String)>, p: ProxyUrlParams) -> bool {
    &&& lookup(pairs, key_of(Field::App)) == Some(p.app)
    &&& lookup(pairs, key_of(Field::U)) == Some(p.u)
    &&& p.env_id == lookup(pairs, key_of(Field::EnvId))
    &&& p.ten_id == lookup(pairs, key_of(Field::TenId))
    &&& p.mod_id == lookup(pairs, key_of(Field::ModId))
    &&& p.ses_id == lookup(pairs, key_of(Field::SesId))
    &&& p.req_id == lookup(pairs, key_of(Field::ReqId))
    &&& p.api_version == lookup(pairs, key_of(Field::ApiVersion))
}

proof fn lemma_keys_distinct()
    ensures
        forall|i: int, j: int|
            0 <= i < FIELD_COUNT && 0 <= j < FIELD_COUNT && i != j ==> key_of(field_at(i))
                != key_of(field_at(j)),
{
    reveal_strlit("app");
    reveal_strlit("u");
    reveal_strlit("envId");
    reveal_strlit("tenId");
    reveal_strlit("modId");
    reveal_strlit("sesId");
    reveal_strlit("reqId");
    reveal_strlit("api-version");
    assert forall|i: int, j: int|
        0 <= i < FIELD_COUNT && 0 <= j < FIELD_COUNT && i != j implies key_of(field_at(i))
            != key_of(field_at(j)) by {
        let a = key_of(field_at(i));
        let b = key_of(field_at(j));
        if a.len() == b.len() {
            assert(a[0] != b[0] || a[1] != b[1]);
        }
    }
}

proof fn lemma_count_grows(pairs: Seq<(String, String)>, i: int, key: Seq<char>)
    requires
        0 <= i <= pairs.len(),
    ensures
        key_count(pairs.subrange(0, i), key) <= key_count(pairs, key),
    decreases pairs.len() - i,
{
    if i < pairs.len() {
        lemma_count_grows(pairs, i + 1, key);
        assert(pairs.subrange(0, i + 1).drop_last() =~= pairs.subrange(0, i));
    } else {
        assert(pairs.subrange(0, i) =~= pairs);
    }
}

fn field_of(k: usize) -> (f: Field)
    requires
        k < FIELD_COUNT,
    ensures
        f == field_at(k as int),
{
    if k == 0 {
        Field::App
    } else if k == 1 {
        Field::U
    } else if k == 2 {
        Field::EnvId
    } else if k == 3 {
        Field::TenId
    } else if k == 4 {
        Field::ModId
    } else if k == 5 {
        Field::SesId
    } else if k == 6 {
        Field::ReqId
    } else {
        Field::ApiVersion
    }
}

/// The position in the list of fields of the field that `key` names, if any.
fn field_index(key: &str) -> (r: Option<usize>)
    ensures
        match r {
            Some(k) => k < FIELD_COUNT && key@ == key_of(field_at(k as int)),
            None => forall|k: int| 0 <= k < FIELD_COUNT ==> key@ != key_of(field_at(k)),
        },
{
    if str_equal(key, "app") {
        Some(0)
    } else if str_equal(key, "u") {
        Some(1)
    } else if str_equal(key, "envId") {
        Some(2)
    } else if str_equal(key, "tenId") {
        Some(3)
    } else if str_equal(key, "modId") {
        Some(4)
    } else if str_equal(key, "sesId") {
        Some(5)
    } else if str_equal(key, "reqId") {
        Some(6)
    } else if str_equal(key, "api-version") {
        Some(7)
    } else {
        assert forall|k: int| 0 <= k < FIELD_COUNT implies key@ != key_of(field_at(k)) by {
            if k == 0 {
            } else if k == 1 {
            } else if k == 2 {
            } else if k == 3 {
            } else if k == 4 {
            } else if k == 5 {
            } else if k == 6 {
            } else {
            }
        }
        None
    }
}

fn take_slot(slots: &mut Vec<Option<String>>, k: usize) -> (r: Option<String>)
    requires
        k < old(slots)@.len(),
    ensures
        r == old(slots)@[k as int],
        final(slots)@ == old(slots)@.update(k as int, None),
{
    let mut out: Option<String> = None;
    std::mem::swap(&mut out, &mut slots[k]);
    out
}

impl ProxyUrlParams {
    /// Reads the parameters from the decoded pairs of a query string. Keys that the proxy does
    /// not read are ignored. A parameter given twice, or a missing application id or target
    /// URL, refuses the query.
    pub fn from_query(pairs: &Vec<(String, String)>) -> (r: Result<ProxyUrlParams, QueryError>)
        ensures
            r is Ok <==> query_accepted(pairs@),
            match r {
                Ok(p) => params_of(pairs@, p),
                Err(QueryError::DuplicateField(f)) => key_count(pairs@, key_of(f)) >= 2,
                Err(QueryError::MissingField(f)) => {
                    &&& no_repeated_field(pairs@)
                    &&& (f == Field::App && key_count(pairs@, key_of(Field::App)) == 0 || f
                        == Field::U && key_count(pairs@, key_of(Field::App)) == 1 && key_count(
                        pairs@,
                        key_of(Field::U),
                    ) == 0)
                },
            },
    {
        proof {
            lemma_keys_distinct();
        }
        let mut slots: Vec<Option<String>> = vec![None, None, None, None, None, None, None, None];
        let n = pairs.len();
        let mut i: usize = 0;
        while i < n
            invariant
                n == pairs@.len(),
                i <= n,
                slots@.len() == FIELD_COUNT,
                forall|k: int|
                    0 <= k < FIELD_COUNT ==> #[trigger] slots@[k] == lookup(
                        pairs@.subrange(0, i as int),
                        key_of(field_at(k)),
                    ),
                forall|k: int|
                    0 <= k < FIELD_COUNT ==> key_count(
                        pairs@.subrange(0, i as int),
                        #[trigger] key_of(field_at(k)),
                    ) == if slots@[k] is Some {
                        1nat
                    } else {
                        0nat
                    },
                forall|i: int, j: int|
                    0 <= i < FIELD_COUNT && 0 <= j < FIELD_COUNT && i != j ==> key_of(field_at(i))
                        != key_of(field_at(j)),
            decreases n - i,
        {
            let ghost before = pairs@.subrange(0, i as int);
            let ghost after = pairs@.subrange(0, i + 1);
            assert(after.drop_last() =~= before);
            assert(after.last() == pairs@[i as int]);
            let key = &pairs[i].0;
            match field_index(key.as_str()) {
                Some(k) => {
                    if slots[k].is_some() {
                        proof {
                            lemma_count_grows(pairs@, i + 1, key_of(field_at(k as int)));
                        }
                        return Err(QueryError::DuplicateField(field_of(k)));
                    }
                    slots.set(k, Some(pairs[i].1.clone()));
                },
                None => {},
            }
            i = i + 1;
        }
        assert(pairs@.subrange(0, n as int) =~= pairs@);
        let ghost full = slots@;
        assert(full[0] == lookup(pairs@, key_of(field_at(0))));
        assert(full[1] == lookup(pairs@, key_of(field_at(1))));
        assert(full[2] == lookup(pairs@, key_of(field_at(2))));
        assert(full[3] == lookup(pairs@, key_of(field_at(3))));
        assert(full[4] == lookup(pairs@, key_of(field_at(4))));
        assert(full[5] == lookup(pairs@, key_of(field_at(5))));
        assert(full[6] == lookup(pairs@, key_of(field_at(6))));
        assert(full[7] == lookup(pairs@, key_of(field_at(7))));
        let app = take_slot(&mut slots, 0);
        let u = take_slot(&mut slots, 1);
        let env_id = take_slot(&mut slots, 2);
        let ten_id = take_slot(&mut slots, 3);
        let mod_id = take_slot(&mut slots, 4);
        let ses_id = take_slot(&mut slots, 5);
        let req_id = take_slot(&mut slots, 6);
        let api_version = take_slot(&mut slots, 7);
        assert(no_repeated_field(pairs@)) by {
            assert forall|f: Field| key_count(pairs@, #[trigger] key_of(f)) <= 1 by {
                let k = index_of(f);
                assert(field_at(k) == f);
                assert(key_count(pairs@, key_of(field_at(k))) <= 1);
            }
        }
        assert(key_count(pairs@, key_of(field_at(0))) <= 1);
        assert(key_count(pairs@, key_of(field_at(1))) <= 1);
        match app {
            None => Err(QueryError::MissingField(Field::App)),
            Some(app) => match u {
                None => Err(QueryError::MissingField(Field::U)),
                Some(u) => {
                    Ok(ProxyUrlParams { app, u, env_id, ten_id, mod_id, ses_id, req_id, api_version })
                },
            },
        }
    }
}

impl QueryError {
    /// The message that the caller is given, naming the parameter.
    pub fn message(&self) -> (r: String)
        ensures
            r@ == match *self {
                QueryError::MissingField(f) => "missing field `"@ + key_of(f) + "`"@,
                QueryError::DuplicateField(f) => "duplicate field `"@ + key_of(f) + "`"@,
            },
    {
        let (prefix, key) = match self {
            QueryError::MissingField(f) => ("missing field `", field_key(*f)),
            QueryError::DuplicateField(f) => ("duplicate field `", field_key(*f)),
        };
        let mut r = String::from_str(prefix);
        r.append(key);
        r.append("`");
        r
    }
}

/// The query key of a field.
pub fn field_key(f: Field) -> (r: &'static str)
    ensures
        r@ == key_of(f),
{
    match f {
        Field::App => "app",
        Field::U => "u",
        Field::EnvId => "envId",
        Field::TenId => "tenId",
        Field::ModId => "modId",
        Field::SesId => "sesId",
        Field::ReqId => "reqId",
        Field::ApiVersion => "api-version",
    }
}

} // verus!
