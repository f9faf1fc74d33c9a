//! User enumeration for the reinstall flow.
//!
//! The session manager is asked (by an unverified caller) for the logged
//! in users as a JSON document; this module holds the verified parsing
//! of that document into a sorted, duplicate-free user-name set, and the
//! record of a user's authorized SSH keys.

use vstd::prelude::*;
use vstd::string::StringSliceAdditionalSpecFns;

use crate::bytestr::{copy_bytes, dec_digits, format_usize, insert_sorted, insert_sorted_spec, lit,
    append_bytes, bytes_eq, seqs_view};

verus! {

/// A JSON value, as far as the session-listing parser reads one.  The
/// caller converts the serializer's document into this shape; numeric
/// payloads are never read.
pub enum JsonValue {
    Null,
    Bool(bool),
    Number,
    Text(Vec<u8>),
    Array(Vec<JsonValue>),
    Object(Vec<JsonMember>),
}

/// One key/value member of a JSON object.
pub struct JsonMember {
    pub key: Vec<u8>,
    pub value: JsonValue,
}

/// The value the first member with this key holds.
pub open spec fn member_value(ms: Seq<JsonMember>, key: Seq<u8>) -> Option<JsonValue>
    decreases ms.len(),
{
    if ms.len() == 0 {
        None
    } else if ms[0].key@ == key {
        Some(ms[0].value)
    } else {
        member_value(ms.drop_first(), key)
    }
}

/// The user name of one session entry: the string under its `user` key.
pub open spec fn spec_session_user(v: JsonValue) -> Result<Seq<u8>, Seq<u8>> {
    match v {
        JsonValue::Object(ms) => match member_value(ms@, "user".spec_bytes()) {
            None => Err("user object doesn't have a user field".spec_bytes()),
            Some(JsonValue::Text(s)) => Ok(s@),
            Some(_) => Err("user name field is not a string".spec_bytes()),
        },
        _ => Err("user entry is not an object".spec_bytes()),
    }
}

/// The session entries' user names folded into a sorted set; the first
/// malformed entry fails the parse.
pub open spec fn spec_collect_users(elems: Seq<JsonValue>, acc: Seq<Seq<u8>>) -> Result<
    Seq<Seq<u8>>,
    Seq<u8>,
>
    decreases elems.len(),
{
    if elems.len() == 0 {
        Ok(acc)
    } else {
        match spec_session_user(elems[0]) {
            Err(m) => Err(m),
            Ok(name) => spec_collect_users(elems.drop_first(), insert_sorted_spec(acc, name)),
        }
    }
}

/// Parse a session listing: an array of session objects.  The root user
/// is always added, since it does not always appear among the sessions.
pub open spec fn spec_loginctl_parse(v: JsonValue) -> Result<Seq<Seq<u8>>, Seq<u8>> {
    match v {
        JsonValue::Array(elems) => match spec_collect_users(elems@, Seq::empty()) {
            Ok(users) => Ok(insert_sorted_spec(users, "root".spec_bytes())),
            Err(m) => Err(m),
        },
        _ => Err("loginctl output is not an array".spec_bytes()),
    }
}

proof fn lemma_member_value_skip(ms: Seq<JsonMember>, key: Seq<u8>, i: int)
    requires
        0 <= i <= ms.len(),
        forall|j: int| 0 <= j < i ==> ms[j].key@ != key,
    ensures
        member_value(ms, key) == member_value(ms.skip(i), key),
    decreases i,
{
    if i > 0 {
        lemma_member_value_skip(ms.drop_first(), key, i - 1);
        assert(ms.drop_first().skip(i - 1) =~= ms.skip(i));
    } else {
        assert(ms.skip(0) =~= ms);
    }
}

fn session_user(v: &JsonValue) -> (r: Result<Vec<u8>, Vec<u8>>)
    ensures
        match r {
            Ok(name) => spec_session_user(*v) == Ok::<Seq<u8>, Seq<u8>>(name@),
            Err(e) => spec_session_user(*v) == Err::<Seq<u8>, Seq<u8>>(e@),
        },
{
    match v {
        JsonValue::Object(ms) => {
            let key = lit("user");
            let mut i: usize = 0;
            while i < ms.len()
                invariant
                    i <= ms@.len(),
                    *v == JsonValue::Object(*ms),
                    key@ == "user".spec_bytes(),
                    forall|j: int| 0 <= j < i ==> ms@[j].key@ != "user".spec_bytes(),
                decreases ms@.len() - i,
            {
                if bytes_eq(&ms[i].key, &key) {
                    proof {
                        lemma_member_value_skip(ms@, "user".spec_bytes(), i as int);
                        assert(ms@.skip(i as int)[0] == ms@[i as int]);
                    }
                    match &ms[i].value {
                        JsonValue::Text(s) => {
                            return Ok(copy_bytes(s));
                        },
                        _ => {
                            return Err(lit("user name field is not a string"));
                        },
                    }
                }
                i = i + 1;
            }
            proof {
                lemma_member_value_skip(ms@, "user".spec_bytes(), i as int);
                assert(ms@.skip(i as int).len() == 0);
            }
            Err(lit("user object doesn't have a user field"))
        },
        _ => Err(lit("user entry is not an object")),
    }
}

/// Parse the session listing into the sorted set of logged-in user
/// names, the root user included.
pub fn loginctl_parse(v: &JsonValue) -> (r: Result<Vec<Vec<u8>>, Vec<u8>>)
    ensures
        match r {
            Ok(users) => spec_loginctl_parse(*v) == Ok::<Seq<Seq<u8>>, Seq<u8>>(
                seqs_view(users@),
            ),
            Err(e) => spec_loginctl_parse(*v) == Err::<Seq<Seq<u8>>, Seq<u8>>(e@),
        },
{
    match v {
        JsonValue::Array(elems) => {
            let mut out: Vec<Vec<u8>> = Vec::new();
            proof {
                assert(seqs_view(out@) =~= Seq::<Seq<u8>>::empty());
                assert(elems@.skip(0) =~= elems@);
            }
            let mut i: usize = 0;
            while i < elems.len()
                invariant
                    i <= elems@.len(),
                    *v == JsonValue::Array(*elems),
                    spec_collect_users(elems@, Seq::empty()) == spec_collect_users(
                        elems@.skip(i as int),
                        seqs_view(out@),
                    ),
                decreases elems@.len() - i,
            {
                proof {
                    assert(elems@.skip(i as int)[0] == elems@[i as int]);
                    assert(elems@.skip(i as int).drop_first() =~= elems@.skip(i as int + 1));
                }
                match session_user(&elems[i]) {
                    Ok(name) => {
                        insert_sorted(&mut out, &name);
                    },
                    Err(e) => {
                        return Err(e);
                    },
                }
                i = i + 1;
            }
            proof {
                assert(elems@.skip(i as int).len() == 0);
            }
            let root = lit("root");
            insert_sorted(&mut out, &root);
            Ok(out)
        },
        _ => Err(lit("loginctl output is not an array")),
    }
}

/// The logged-in users, from the session manager's JSON listing.
pub fn loginctl_users(v: &JsonValue) -> (r: Result<Vec<Vec<u8>>, Vec<u8>>)
    ensures
        match r {
            Ok(users) => spec_loginctl_parse(*v) == Ok::<Seq<Seq<u8>>, Seq<u8>>(
                seqs_view(users@),
            ),
            Err(e) => spec_loginctl_parse(*v) == Err::<Seq<Seq<u8>>, Seq<u8>>(e@),
        },
{
    loginctl_parse(v)
}

/// How many newlines a byte string holds.
pub open spec fn count_newlines(s: Seq<u8>) -> nat
    decreases s.len(),
{
    if s.len() == 0 {
        0
    } else {
        count_newlines(s.drop_last()) + (if s.last() == 10 {
            1nat
        } else {
            0nat
        })
    }
}

proof fn lemma_count_newlines_le(s: Seq<u8>)
    ensures
        count_newlines(s) <= s.len(),
    decreases s.len(),
{
    if s.len() > 0 {
        lemma_count_newlines_le(s.drop_last());
    }
}

/// How many lines a byte string holds, the way a line iterator counts
/// them: a trailing newline opens no further line.
pub open spec fn spec_line_count(s: Seq<u8>) -> nat {
    if s.len() == 0 {
        0
    } else {
        count_newlines(s) + (if s.last() == 10 {
            0nat
        } else {
            1nat
        })
    }
}

/// One user's authorized SSH keys.
#[derive(Clone, Debug)]
pub struct UserKeys {
    pub user: Vec<u8>,
    pub authorized_keys: Vec<u8>,
    pub authorized_keys_path: Vec<u8>,
}

impl UserKeys {
    /// How many keys the user has: one per line of the key file.
    pub fn num_keys(&self) -> (n: usize)
        ensures
            n as nat == spec_line_count(self.authorized_keys@),
    {
        let s = &self.authorized_keys;
        let mut newlines: usize = 0;
        let mut i: usize = 0;
        while i < s.len()
            invariant
                i <= s@.len(),
                newlines <= i,
                newlines as nat == count_newlines(s@.take(i as int)),
            decreases s@.len() - i,
        {
            if s[i] == 10 {
                newlines = newlines + 1;
            }
            i = i + 1;
            proof {
                assert(s@.take(i as int).drop_last() =~= s@.take(i as int - 1));
                assert(s@.take(i as int).last() == s@[i as int - 1]);
            }
        }
        proof {
            assert(s@.take(i as int) =~= s@);
        }
        if s.len() == 0 {
            0
        } else if s[s.len() - 1] == 10 {
            newlines
        } else {
            proof {
                lemma_count_newlines_le(s@.drop_last());
            }
            newlines + 1
        }
    }

    /// The one-line description of the user shown in prompts.
    pub fn describe(&self) -> (v: Vec<u8>)
        ensures
            v@ == "User ".spec_bytes() + self.user@ + " (".spec_bytes() + dec_digits(
                spec_line_count(self.authorized_keys@),
            ) + " authorized keys)".spec_bytes(),
    {
        let mut v = lit("User ");
        append_bytes(&mut v, &self.user);
        let open = lit(" (");
        append_bytes(&mut v, &open);
        let n = format_usize(self.num_keys());
        append_bytes(&mut v, &n);
        let tail = lit(" authorized keys)");
        append_bytes(&mut v, &tail);
        proof {
            assert(v@ =~= "User ".spec_bytes() + self.user@ + " (".spec_bytes() + dec_digits(
                spec_line_count(self.authorized_keys@),
            ) + " authorized keys)".spec_bytes());
        }
        v
    }
}

/// ASCII whitespace, as a key file of only these is considered empty.
pub open spec fn is_whitespace_byte(b: u8) -> bool {
    b == 32 || (9 <= b <= 13)
}

/// Whether a key file is effectively empty.
pub open spec fn spec_all_whitespace(s: Seq<u8>) -> bool {
    forall|i: int| 0 <= i < s.len() ==> is_whitespace_byte(#[trigger] s[i])
}

/// The decision whether a user's key file yields a record: a file of
/// only whitespace is skipped, anything else is kept as found.
pub fn user_keys_from_file(user: Vec<u8>, path: Vec<u8>, contents: Vec<u8>) -> (r: Option<
    UserKeys,
>)
    ensures
        match r {
            None => spec_all_whitespace(contents@),
            Some(k) => !spec_all_whitespace(contents@) && k.user == user && k.authorized_keys
                == contents && k.authorized_keys_path == path,
        },
{
    let mut i: usize = 0;
    while i < contents.len()
        invariant
            i <= contents@.len(),
            forall|j: int| 0 <= j < i ==> is_whitespace_byte(#[trigger] contents@[j]),
        decreases contents@.len() - i,
    {
        let b = contents[i];
        if !(b == 32 || (9 <= b && b <= 13)) {
            return Some(
                UserKeys { user, authorized_keys: contents, authorized_keys_path: path },
            );
        }
        i = i + 1;
    }
    None
}

} // verus!
