//! The textual connection-string form: `;`-separated `key=value` pairs
//! with case-insensitive keys. The recognized keys are `Server`,
//! `Database`, `UID` and `PWD`; an unrecognized key, or a pair without an
//! equals sign, is a configuration error.
//!
//! Parsing only gathers the fields; opening a socket to the named server
//! is the caller's business.

use vstd::prelude::*;
use vstd::string::StringSliceAdditionalSpecFns;

use crate::bytesutil::{ascii_lower, copy_range, spec_ascii_lower};
use crate::errors::{TdsError, TdsResult};

verus! {

/// The position of the first `sep` byte of `s`, if any.
pub open spec fn spec_find(s: Seq<u8>, sep: u8) -> Option<int>
    decreases s.len(),
{
    if s.len() == 0 {
        None
    } else if s[0] == sep {
        Some(0int)
    } else {
        match spec_find(s.drop_first(), sep) {
            None => None,
            Some(i) => Some(i + 1),
        }
    }
}

/// The first found position lies in range and carries `sep`, everything
/// before it does not; no found position means no byte is `sep`.
pub proof fn lemma_find_props(s: Seq<u8>, sep: u8)
    ensures
        match spec_find(s, sep) {
            Some(i) => 0 <= i < s.len() && s[i] == sep && forall|k: int| 0 <= k < i ==> s[k] != sep,
            None => forall|k: int| 0 <= k < s.len() ==> s[k] != sep,
        },
    decreases s.len(),
{
    if s.len() > 0 && s[0] != sep {
        lemma_find_props(s.drop_first(), sep);
        assert forall|k: int| 0 <= k < s.len() implies #[trigger] s[k] == s[k] && (match spec_find(
            s,
            sep,
        ) {
            Some(i) => k < i ==> s[k] != sep,
            None => s[k] != sep,
        }) by {
            if k > 0 {
                assert(s.drop_first()[k - 1] == s[k]);
            }
        }
    }
}

/// Finds the first `sep` byte of `s`.
pub fn find_byte(s: &Vec<u8>, sep: u8) -> (r: Option<usize>)
    ensures
        match r {
            Some(i) => spec_find(s@, sep) == Some(i as int),
            None => spec_find(s@, sep) is None,
        },
{
    let n = s.len();
    let mut i: usize = 0;
    while i < n
        invariant
            n == s@.len(),
            i <= n,
            forall|k: int| 0 <= k < i ==> s@[k] != sep,
        decreases n - i,
    {
        if s[i] == sep {
            proof {
                lemma_find_props(s@, sep);
                match spec_find(s@, sep) {
                    Some(j) => {
                        if j < i {
                            assert(s@[j] != sep);
                        }
                        if j > i {
                            assert(s@[i as int] != sep);
                        }
                    },
                    None => {
                        assert(s@[i as int] != sep);
                    },
                }
            }
            return Some(i);
        }
        i = i + 1;
    }
    proof {
        lemma_find_props(s@, sep);
        match spec_find(s@, sep) {
            Some(j) => {
                assert(s@[j] != sep);
            },
            None => {},
        }
    }
    None
}

/// The pieces of `s` between its `sep` bytes, in order: joining them with
/// `sep` gives `s` back, and no piece contains `sep`.
pub open spec fn spec_split(s: Seq<u8>, sep: u8) -> Seq<Seq<u8>>
    decreases s.len(),
{
    match spec_find(s, sep) {
        None => seq![s],
        Some(i) => if 0 <= i < s.len() {
            seq![s.take(i)] + spec_split(s.skip(i + 1), sep)
        } else {
            seq![s]
        },
    }
}

/// Splits `s` at every `sep` byte.
pub fn split_bytes(s: &Vec<u8>, sep: u8) -> (r: Vec<Vec<u8>>)
    ensures
        r@.map_values(|p: Vec<u8>| p@) == spec_split(s@, sep),
    decreases s@.len(),
{
    proof {
        lemma_find_props(s@, sep);
    }
    match find_byte(s, sep) {
        None => {
            let mut out: Vec<Vec<u8>> = Vec::new();
            out.push(s.clone());
            proof {
                assert(out@.map_values(|p: Vec<u8>| p@) =~= seq![s@]);
            }
            out
        },
        Some(i) => {
            let n = s.len();
            let head = copy_range(s, 0, i);
            let rest = copy_range(s, i + 1, n - i - 1);
            proof {
                assert(rest@ =~= s@.skip(i + 1));
                assert(head@ =~= s@.take(i as int));
            }
            let mut out = split_bytes(&rest, sep);
            out.insert(0, head);
            proof {
                assert(out@.map_values(|p: Vec<u8>| p@) =~= seq![s@.take(i as int)] + spec_split(
                    s@.skip(i + 1),
                    sep,
                ));
            }
            out
        },
    }
}

/// The pieces joined back with `sep` between them.
pub open spec fn spec_join(parts: Seq<Seq<u8>>, sep: u8) -> Seq<u8>
    decreases parts.len(),
{
    if parts.len() == 0 {
        Seq::empty()
    } else if parts.len() == 1 {
        parts[0]
    } else {
        parts[0] + seq![sep] + spec_join(parts.drop_first(), sep)
    }
}

/// Splitting is exactly inverted by joining, and no piece contains the
/// separator: the two properties determine the split uniquely.
pub proof fn lemma_split_join(s: Seq<u8>, sep: u8)
    ensures
        spec_join(spec_split(s, sep), sep) == s,
        forall|i: int, k: int|
            0 <= i < spec_split(s, sep).len() && 0 <= k < spec_split(s, sep)[i].len()
                ==> #[trigger] spec_split(s, sep)[i][k] != sep,
    decreases s.len(),
{
    lemma_find_props(s, sep);
    let parts = spec_split(s, sep);
    match spec_find(s, sep) {
        None => {
            assert(parts == seq![s]);
            assert(parts[0] == s);
        },
        Some(i) => {
            lemma_split_join(s.skip(i + 1), sep);
            let rest = spec_split(s.skip(i + 1), sep);
            assert(rest.len() >= 1);
            assert(parts == seq![s.take(i)] + rest);
            assert(parts.drop_first() =~= rest);
            assert(parts[0] == s.take(i));
            assert(spec_join(parts, sep) =~= s.take(i) + seq![sep] + spec_join(rest, sep));
            assert(s.take(i) + seq![sep] + s.skip(i + 1) =~= s);
            assert forall|j: int, k: int|
                0 <= j < parts.len() && 0 <= k < parts[j].len() implies #[trigger] parts[j][k]
                != sep by {
                if j == 0 {
                    assert(parts[0][k] == s[k]);
                } else {
                    assert(parts[j] == rest[j - 1]);
                }
            }
        },
    }
}

/// The ASCII bytes of the key `server`.
pub open spec fn spec_server_key() -> Seq<u8> {
    seq![115u8, 101u8, 114u8, 118u8, 101u8, 114u8]
}

/// The ASCII bytes of the key `database`.
pub open spec fn spec_database_key() -> Seq<u8> {
    seq![100u8, 97u8, 116u8, 97u8, 98u8, 97u8, 115u8, 101u8]
}

/// The ASCII bytes of the key `uid`.
pub open spec fn spec_uid_key() -> Seq<u8> {
    seq![117u8, 105u8, 100u8]
}

/// The ASCII bytes of the key `pwd`.
pub open spec fn spec_pwd_key() -> Seq<u8> {
    seq![112u8, 119u8, 100u8]
}

/// The fields gathered from a connection string. Absent keys stay absent;
/// a key given twice keeps its last value.
#[derive(Debug)]
pub struct ConnectionStringParts {
    /// The value of the `Server` key.
    pub server: Option<Vec<u8>>,
    /// The value of the `Database` key.
    pub database: Option<Vec<u8>>,
    /// The value of the `UID` key.
    pub username: Option<Vec<u8>>,
    /// The value of the `PWD` key.
    pub password: Option<Vec<u8>>,
}

/// The mathematical image of [`ConnectionStringParts`].
pub struct ConnectionStringPartsV {
    pub server: Option<Seq<u8>>,
    pub database: Option<Seq<u8>>,
    pub username: Option<Seq<u8>>,
    pub password: Option<Seq<u8>>,
}

impl View for ConnectionStringParts {
    type V = ConnectionStringPartsV;

    open spec fn view(&self) -> ConnectionStringPartsV {
        ConnectionStringPartsV {
            server: match self.server {
                Some(ref v) => Some(v@),
                None => None,
            },
            database: match self.database {
                Some(ref v) => Some(v@),
                None => None,
            },
            username: match self.username {
                Some(ref v) => Some(v@),
                None => None,
            },
            password: match self.password {
                Some(ref v) => Some(v@),
                None => None,
            },
        }
    }
}

/// One `key=value` pair applied to the gathered fields: the key is
/// lower-cased and must be one of the recognized four; a pair without an
/// equals sign, or with any other key, is refused.
pub open spec fn spec_apply_pair(acc: ConnectionStringPartsV, pair: Seq<u8>) -> Option<
    ConnectionStringPartsV,
> {
    match spec_find(pair, 61) {
        None => None,
        Some(i) => {
            let key = pair.take(i).map_values(|b: u8| spec_ascii_lower(b));
            let value = pair.skip(i + 1);
            if key == spec_server_key() {
                Some(ConnectionStringPartsV { server: Some(value), ..acc })
            } else if key == spec_database_key() {
                Some(ConnectionStringPartsV { database: Some(value), ..acc })
            } else if key == spec_uid_key() {
                Some(ConnectionStringPartsV { username: Some(value), ..acc })
            } else if key == spec_pwd_key() {
                Some(ConnectionStringPartsV { password: Some(value), ..acc })
            } else {
                None
            }
        },
    }
}

/// All pairs applied in order, later pairs overwriting earlier ones.
pub open spec fn spec_apply_pairs(acc: ConnectionStringPartsV, pairs: Seq<Seq<u8>>) -> Option<
    ConnectionStringPartsV,
>
    decreases pairs.len(),
{
    if pairs.len() == 0 {
        Some(acc)
    } else {
        match spec_apply_pair(acc, pairs[0]) {
            None => None,
            Some(a) => spec_apply_pairs(a, pairs.drop_first()),
        }
    }
}

/// Nothing gathered yet.
pub open spec fn spec_empty_parts() -> ConnectionStringPartsV {
    ConnectionStringPartsV { server: None, database: None, username: None, password: None }
}

/// A whole connection string parsed: split at `;`, each pair applied in
/// order. Nothing if any pair is malformed or carries an unknown key.
pub open spec fn spec_parse_connection_string(s: Seq<u8>) -> Option<ConnectionStringPartsV> {
    spec_apply_pairs(spec_empty_parts(), spec_split(s, 59))
}


/// Builds the ASCII bytes of the key `server`.
fn server_key() -> (r: Vec<u8>)
    ensures
        r@ == spec_server_key(),
{
    let mut v: Vec<u8> = Vec::new();
    v.push(115);
    v.push(101);
    v.push(114);
    v.push(118);
    v.push(101);
    v.push(114);
    assert(v@ =~= spec_server_key());
    v
}

/// Builds the ASCII bytes of the key `database`.
fn database_key() -> (r: Vec<u8>)
    ensures
        r@ == spec_database_key(),
{
    let mut v: Vec<u8> = Vec::new();
    v.push(100);
    v.push(97);
    v.push(116);
    v.push(97);
    v.push(98);
    v.push(97);
    v.push(115);
    v.push(101);
    assert(v@ =~= spec_database_key());
    v
}

/// Builds the ASCII bytes of the key `uid`.
fn uid_key() -> (r: Vec<u8>)
    ensures
        r@ == spec_uid_key(),
{
    let mut v: Vec<u8> = Vec::new();
    v.push(117);
    v.push(105);
    v.push(100);
    assert(v@ =~= spec_uid_key());
    v
}

/// Builds the ASCII bytes of the key `pwd`.
fn pwd_key() -> (r: Vec<u8>)
    ensures
        r@ == spec_pwd_key(),
{
    let mut v: Vec<u8> = Vec::new();
    v.push(112);
    v.push(119);
    v.push(100);
    assert(v@ =~= spec_pwd_key());
    v
}

/// Applies one `key=value` pair to the gathered fields.
fn apply_pair(acc: &mut ConnectionStringParts, pair: &Vec<u8>) -> (r: bool)
    ensures
        r ==> spec_apply_pair(old(acc)@, pair@) == Some(final(acc)@),
        !r ==> spec_apply_pair(old(acc)@, pair@) is None && *final(acc) == *old(acc),
{
    let i = match find_byte(pair, 61) {
        Some(i) => i,
        None => {
            return false;
        },
    };
    proof {
        lemma_find_props(pair@, 61);
    }
    let n = pair.len();
    let raw_key = copy_range(pair, 0, i);
    let key = ascii_lower(&raw_key);
    let value = copy_range(pair, i + 1, n - i - 1);
    proof {
        assert(raw_key@ =~= pair@.take(i as int));
        assert(value@ =~= pair@.skip(i + 1));
    }
    if crate::bytesutil::bytes_eq(key.as_slice(), server_key().as_slice()) {
        acc.server = Some(value);
        true
    } else if crate::bytesutil::bytes_eq(key.as_slice(), database_key().as_slice()) {
        acc.database = Some(value);
        true
    } else if crate::bytesutil::bytes_eq(key.as_slice(), uid_key().as_slice()) {
        acc.username = Some(value);
        true
    } else if crate::bytesutil::bytes_eq(key.as_slice(), pwd_key().as_slice()) {
        acc.password = Some(value);
        true
    } else {
        false
    }
}

/// Parses a connection string of `;`-separated, case-insensitive
/// `key=value` pairs into its fields.
///
/// Succeeds exactly when every pair is well formed and every key is one of
/// `Server`, `Database`, `UID`, `PWD`; anything else is a configuration
/// error.
pub fn parse_connection_string(s: &str) -> (r: TdsResult<ConnectionStringParts>)
    ensures
        match spec_parse_connection_string(s.spec_bytes()) {
            Some(p) => r matches Ok(parts) && parts@ == p,
            None => r matches Err(e) && e is Config,
        },
{
    let bytes = vstd::slice::slice_to_vec(s.as_bytes());
    let pairs = split_bytes(&bytes, 59);
    let ghost g_pairs = pairs@.map_values(|p: Vec<u8>| p@);
    let mut acc = ConnectionStringParts {
        server: None,
        database: None,
        username: None,
        password: None,
    };
    let n = pairs.len();
    let mut i: usize = 0;
    proof {
        assert(g_pairs.skip(0) =~= g_pairs);
        assert(acc@ == spec_empty_parts());
    }
    while i < n
        invariant
            n == pairs@.len(),
            i <= n,
            g_pairs == pairs@.map_values(|p: Vec<u8>| p@),
            spec_apply_pairs(acc@, g_pairs.skip(i as int)) == spec_parse_connection_string(
                s.spec_bytes(),
            ),
        decreases n - i,
    {
        proof {
            assert(g_pairs.skip(i as int)[0] == g_pairs[i as int]);
            assert(g_pairs[i as int] == pairs@[i as int]@);
            assert(g_pairs.skip(i as int).drop_first() =~= g_pairs.skip(i + 1));
        }
        if !apply_pair(&mut acc, &pairs[i]) {
            return Err(TdsError::Config);
        }
        i = i + 1;
    }
    proof {
        assert(g_pairs.skip(n as int) =~= Seq::<Seq<u8>>::empty());
    }
    Ok(acc)
}

} // verus!
