//! The user record store: a durable mapping from username to stored
//! credential record.
//!
//! The store is an ordered sequence of records under one invariant: no
//! two records share a username.  It is serialized as a whole through
//! `encode` and read back through `from_encoded`; the round trip is the
//! identity (`lemma_store_round_trip`).

use vstd::prelude::*;

use crate::chars::{chars_string, str_chars};
use crate::codec::{
    dec_records, decode_fields, enc_field, enc_fields, enc_records, fields_of,
    lemma_records_round_trip, pair_fields, push_field,
};
use crate::errors::AuthError;

verus! {

/// One stored credential record: the unique, case-sensitive username and
/// the self-describing password hash string.
#[derive(Clone, Debug)]
pub struct UserRecord {
    pub username: String,
    pub password_hash: String,
}

impl View for UserRecord {
    type V = (Seq<char>, Seq<char>);

    open spec fn view(&self) -> (Seq<char>, Seq<char>) {
        (self.username@, self.password_hash@)
    }
}

/// No two records share a username.
pub open spec fn unique_names(rs: Seq<(Seq<char>, Seq<char>)>) -> bool {
    forall|i: int, j: int| 0 <= i < j < rs.len() ==> rs[i].0 != rs[j].0
}

/// Whether some record carries this username.
pub open spec fn contains_name(rs: Seq<(Seq<char>, Seq<char>)>, u: Seq<char>) -> bool {
    exists|i: int| 0 <= i < rs.len() && rs[i].0 == u
}

/// What a store file holds: the decoded records, which must also obey the
/// uniqueness invariant; anything else is corruption.
pub open spec fn decode_store(s: Seq<char>) -> Option<Seq<(Seq<char>, Seq<char>)>> {
    match dec_records(s) {
        None => None,
        Some(rs) => if unique_names(rs) {
            Some(rs)
        } else {
            None
        },
    }
}

/// In a well-formed store a username stands at exactly one position: two
/// indices that carry the same username are the same index.
pub proof fn lemma_unique_name_index(rs: Seq<(Seq<char>, Seq<char>)>, i: int, j: int)
    requires
        unique_names(rs),
        0 <= i < rs.len(),
        0 <= j < rs.len(),
        rs[i].0 == rs[j].0,
    ensures
        i == j,
{
}

/// Persisting a well-formed store and reading it back yields exactly the
/// same records, in the same order.
pub proof fn lemma_store_round_trip(rs: Seq<(Seq<char>, Seq<char>)>)
    requires
        unique_names(rs),
    ensures
        decode_store(enc_records(rs)) == Some(rs),
{
    lemma_records_round_trip(rs);
}

/// The user store: an ordered sequence of credential records, no two with
/// the same username.
#[derive(Debug)]
pub struct UserStore {
    users: Vec<UserRecord>,
}

impl View for UserStore {
    type V = Seq<(Seq<char>, Seq<char>)>;

    closed spec fn view(&self) -> Seq<(Seq<char>, Seq<char>)> {
        self.users@.map_values(|r: UserRecord| r@)
    }
}

impl UserStore {
    /// The store invariant: username uniqueness across all records.
    pub open spec fn wf(&self) -> bool {
        unique_names(self@)
    }

    /// An empty store, the initial state on first run.
    pub fn new() -> (s: UserStore)
        ensures
            s@ == Seq::<(Seq<char>, Seq<char>)>::empty(),
            s.wf(),
    {
        let s = UserStore { users: Vec::new() };
        proof {
            assert(s@ =~= Seq::<(Seq<char>, Seq<char>)>::empty());
        }
        s
    }

    pub fn len(&self) -> (n: usize)
        ensures
            n == self@.len(),
    {
        self.users.len()
    }

    /// The record at a position, for read-only walks of the store.
    pub fn record_at(&self, i: usize) -> (r: &UserRecord)
        requires
            i < self@.len(),
        ensures
            r@ == self@[i as int],
    {
        &self.users[i]
    }

    /// Whether a record with this username exists.
    pub fn contains(&self, username: &str) -> (b: bool)
        ensures
            b == contains_name(self@, username@),
    {
        let uname: String = username.to_owned();
        let n = self.users.len();
        let mut k: usize = 0;
        while k < n
            invariant
                k <= n,
                n == self@.len(),
                uname@ == username@,
                forall|j: int| 0 <= j < k ==> self@[j].0 != username@,
            decreases n - k,
        {
            if self.users[k].username == uname {
                assert(self@[k as int].0 == username@);
                return true;
            }
            k += 1;
        }
        false
    }

    /// The record carrying this username, where one exists.
    pub fn find(&self, username: &str) -> (r: Option<&UserRecord>)
        ensures
            match r {
                Some(rec) => rec@.0 == username@ && contains_name(self@, username@)
                    && exists|i: int| 0 <= i < self@.len() && self@[i] == rec@,
                None => !contains_name(self@, username@),
            },
    {
        let uname: String = username.to_owned();
        let n = self.users.len();
        let mut k: usize = 0;
        while k < n
            invariant
                k <= n,
                n == self@.len(),
                uname@ == username@,
                forall|j: int| 0 <= j < k ==> self@[j].0 != username@,
            decreases n - k,
        {
            if self.users[k].username == uname {
                assert(self@[k as int].0 == username@);
                return Some(&self.users[k]);
            }
            k += 1;
        }
        None
    }

    /// The check-then-append a registration needs, as one operation over
    /// the exclusively borrowed store; callers that share a store must
    /// serialize calls (a lock around the store), and the contract then
    /// makes at most one appender win any given username.
    pub fn append_if_absent(&mut self, record: UserRecord) -> (r: Result<(), AuthError>)
        requires
            old(self).wf(),
        ensures
            final(self).wf(),
            match r {
                Ok(()) => !contains_name(old(self)@, record@.0) && final(self)@ == old(
                    self,
                )@.push(record@),
                Err(e) => e == AuthError::UsernameTaken && contains_name(old(self)@, record@.0)
                    && final(self)@ == old(self)@,
            },
    {
        if self.contains(record.username.as_str()) {
            Err(AuthError::UsernameTaken)
        } else {
            proof {
                assert(forall|i: int|
                    0 <= i < self@.len() ==> self@[i].0 != record@.0);
            }
            let ghost prev = self@;
            self.users.push(record);
            proof {
                assert(self@ =~= prev.push(record@));
            }
            Ok(())
        }
    }

    /// Whether all usernames in the store differ, position by position.
    fn names_unique(&self) -> (b: bool)
        ensures
            b == unique_names(self@),
    {
        let n = self.users.len();
        let mut i: usize = 0;
        while i < n
            invariant
                i <= n,
                n == self@.len(),
                forall|p: int, q: int| 0 <= p < q < i ==> self@[p].0 != self@[q].0,
            decreases n - i,
        {
            let mut j: usize = 0;
            while j < i
                invariant
                    j <= i < n,
                    n == self@.len(),
                    forall|p: int| 0 <= p < j ==> self@[p].0 != self@[i as int].0,
                decreases i - j,
            {
                if self.users[j].username == self.users[i].username {
                    assert(self@[j as int].0 == self@[i as int].0);
                    return false;
                }
                j += 1;
            }
            i += 1;
        }
        true
    }

    /// Serialize the whole store to the string that `from_encoded` reads
    /// back.
    pub fn encode(&self) -> (r: String)
        ensures
            r@ == enc_records(self@),
    {
        let mut out: Vec<char> = Vec::new();
        let n = self.users.len();
        let mut k: usize = 0;
        proof {
            assert(self@.skip(0int) =~= self@);
            assert(Seq::<char>::empty() + enc_fields(fields_of(self@)) =~= enc_fields(
                fields_of(self@),
            ));
        }
        while k < n
            invariant
                k <= n,
                n == self@.len(),
                out@ + enc_fields(fields_of(self@.skip(k as int))) == enc_records(self@),
            decreases n - k,
        {
            let u = str_chars(self.users[k].username.as_str());
            let h = str_chars(self.users[k].password_hash.as_str());
            let ghost before = out@;
            push_field(&mut out, &u);
            push_field(&mut out, &h);
            proof {
                let rest = self@.skip(k as int);
                let tail = self@.skip(k + 1 as int);
                assert(rest[0] == self@[k as int]);
                assert(rest.drop_first() =~= tail);
                let fs = fields_of(rest);
                assert(fs == seq![u@, h@] + fields_of(tail));
                assert(fs[0] == u@);
                let fs1 = seq![h@] + fields_of(tail);
                assert(fs.drop_first() =~= fs1);
                assert(enc_fields(fs) == enc_field(u@) + enc_fields(fs1));
                assert(fs1[0] == h@);
                assert(fs1.drop_first() =~= fields_of(tail));
                assert(enc_fields(fs1) == enc_field(h@) + enc_fields(fields_of(tail)));
                assert(out@ + enc_fields(fields_of(tail)) =~= before + enc_fields(fs));
            }
            k += 1;
        }
        proof {
            assert(self@.skip(n as int) =~= Seq::<(Seq<char>, Seq<char>)>::empty());
            assert(out@ + enc_fields(fields_of(self@.skip(n as int))) =~= out@);
        }
        chars_string(&out)
    }

    /// Read a store back from its serialized form.  Corruption — an input
    /// the encoder cannot have produced, or one whose records break the
    /// uniqueness invariant — is a `StorageError`.
    pub fn from_encoded(contents: &str) -> (r: Result<UserStore, AuthError>)
        ensures
            match r {
                Ok(st) => st.wf() && decode_store(contents@) == Some(st@),
                Err(e) => e == AuthError::StorageError && decode_store(contents@) is None,
            },
    {
        let cs = str_chars(contents);
        let fields: Vec<Vec<char>> = match decode_fields(&cs) {
            Some(fs) => fs,
            None => {
                return Err(AuthError::StorageError);
            },
        };
        let ghost fs_v = fields@.map_values(|f: Vec<char>| f@);
        let nf = fields.len();
        if nf % 2 != 0 {
            return Err(AuthError::StorageError);
        }
        let mut users: Vec<UserRecord> = Vec::new();
        let mut k: usize = 0;
        proof {
            assert(fs_v.skip(0int) =~= fs_v);
            assert(users@.map_values(|r: UserRecord| r@) =~= Seq::<(Seq<char>, Seq<char>)>::empty());
            assert(Seq::<(Seq<char>, Seq<char>)>::empty() + pair_fields(fs_v) =~= pair_fields(
                fs_v,
            ));
        }
        while k < nf
            invariant
                k <= nf,
                k % 2 == 0,
                nf % 2 == 0,
                nf == fs_v.len(),
                fs_v == fields@.map_values(|f: Vec<char>| f@),
                nf == fields@.len(),
                users@.map_values(|r: UserRecord| r@) + pair_fields(fs_v.skip(k as int))
                    == pair_fields(fs_v),
            decreases nf - k,
        {
            let u = chars_string(&fields[k]);
            let h = chars_string(&fields[k + 1]);
            let ghost before = users@.map_values(|r: UserRecord| r@);
            let rec = UserRecord { username: u, password_hash: h };
            proof {
                let rest = fs_v.skip(k as int);
                assert(rest.len() >= 2);
                assert(rest[0] == fs_v[k as int]);
                assert(rest[1] == fs_v[k + 1 as int]);
                assert(rest.skip(2) =~= fs_v.skip(k + 2 as int));
                assert(pair_fields(rest) == seq![(rest[0], rest[1])] + pair_fields(rest.skip(2)));
                assert(users@.push(rec).map_values(|r: UserRecord| r@) =~= before.push(rec@));
                assert(before.push(rec@) + pair_fields(fs_v.skip(k + 2 as int)) =~= before + (
                seq![(fs_v[k as int], fs_v[k + 1 as int])] + pair_fields(rest.skip(2))));
            }
            users.push(rec);
            k += 2;
        }
        proof {
            assert(fs_v.skip(nf as int) =~= Seq::<Seq<char>>::empty());
            assert(users@.map_values(|r: UserRecord| r@) + pair_fields(fs_v.skip(nf as int))
                =~= users@.map_values(|r: UserRecord| r@));
        }
        let store = UserStore { users };
        if store.names_unique() {
            Ok(store)
        } else {
            Err(AuthError::StorageError)
        }
    }
}

} // verus!
