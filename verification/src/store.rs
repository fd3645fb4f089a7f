//! Rules of the encrypted local store: which provider credentials exist and
//! under which keyring names, when a stored secret counts, when a keyring
//! database key is used, the statements run on each connection, how the
//! schema is cut into statements, and the least effort of a task.
use vstd::prelude::*;
use vstd::string::StringSliceAdditionalSpecFns;
use crate::text::{
    append_chars, append_str, chars_of, split_by, split_chars, string_of, string_views, trim_chars,
    trim_text, views, Separator,
};

verus! {

/// The keyring service under which every secret is kept.
pub const KEYRING_SERVICE: &'static str = "IB45Coach";

/// The keyring entry for a credential the user enters: the OpenAI key and
/// the Google OAuth client's identifier and secret.
pub open spec fn credential_key_of(name: Seq<char>) -> Option<Seq<char>> {
    if name == "openai"@ {
        Some("openai-api-key"@)
    } else if name == "googleClientId"@ {
        Some("google-client-id"@)
    } else if name == "googleClientSecret"@ {
        Some("google-client-secret"@)
    } else {
        None
    }
}

/// The keyring entry for the credential called `name`; none for an unknown
/// credential.
pub fn credential_key(name: &str) -> (r: Option<&'static str>)
    ensures
        match r {
            Some(k) => credential_key_of(name@) == Some(k@),
            None => credential_key_of(name@) is None,
        },
{
    let n = chars_of(name);
    if crate::text::chars_equal_str(&n, "openai") {
        Some("openai-api-key")
    } else if crate::text::chars_equal_str(&n, "googleClientId") {
        Some("google-client-id")
    } else if crate::text::chars_equal_str(&n, "googleClientSecret") {
        Some("google-client-secret")
    } else {
        None
    }
}

/// The value saved for a credential: the entered text without surrounding
/// white space.
pub fn credential_value(value: &str) -> (r: String)
    ensures
        r@ == trim_text(value@),
{
    string_of(&trim_chars(&chars_of(value)))
}

/// A secret read from the keyring counts only when it holds more than white
/// space.
pub fn usable_secret(stored: Option<String>) -> (r: Option<String>)
    ensures
        r == match stored {
            Some(s) => if trim_text(s@).len() > 0 {
                Some(s)
            } else {
                None
            },
            None => None,
        },
{
    match stored {
        Some(s) => {
            let trimmed = trim_chars(&chars_of(s.as_str()));
            if trimmed.len() > 0 {
                Some(s)
            } else {
                None
            }
        },
        None => None,
    }
}

/// A database key found in the keyring is used when it has at least 32
/// bytes; otherwise a new one is made.
pub fn keyring_key_usable(value: &str) -> (r: bool)
    ensures
        r == (value.spec_bytes().len() >= 32),
{
    value.as_bytes().len() >= 32
}

/// The statements run on every new connection: the SQLCipher key given as
/// hexadecimal, then the cipher, foreign-key, deletion, synchronisation and
/// checkpoint settings.
pub open spec fn connection_pragmas_of(db_key: Seq<char>) -> Seq<char> {
    "PRAGMA key = \"x'"@ + db_key
        + "'\";PRAGMA cipher_compatibility = 4;PRAGMA foreign_keys = ON;PRAGMA secure_delete = ON;PRAGMA synchronous = NORMAL;PRAGMA wal_autocheckpoint = 1000;"@
}

/// The statements to run on a new connection opened with `db_key`.
pub fn connection_pragmas(db_key: &str) -> (r: String)
    ensures
        r@ == connection_pragmas_of(db_key@),
{
    let mut v: Vec<char> = Vec::new();
    append_str(&mut v, "PRAGMA key = \"x'");
    append_str(&mut v, db_key);
    append_str(
        &mut v,
        "'\";PRAGMA cipher_compatibility = 4;PRAGMA foreign_keys = ON;PRAGMA secure_delete = ON;PRAGMA synchronous = NORMAL;PRAGMA wal_autocheckpoint = 1000;",
    );
    string_of(&v)
}

pub open spec fn trimmed() -> spec_fn(Seq<char>) -> Seq<char> {
    |s: Seq<char>| trim_text(s)
}

pub open spec fn not_blank() -> spec_fn(Seq<char>) -> bool {
    |s: Seq<char>| s.len() > 0
}

pub open spec fn terminated() -> spec_fn(Seq<char>) -> Seq<char> {
    |s: Seq<char>| s.push(';')
}

/// The statements of a schema, run one at a time: the text between
/// semicolons, trimmed, leaving out the blank pieces, each ended by `;`.
pub open spec fn migration_statements_of(schema: Seq<char>) -> Seq<Seq<char>> {
    split_by(schema, Separator::Semicolon).map_values(trimmed()).filter(not_blank()).map_values(
        terminated(),
    )
}

/// Cuts a schema into the statements that a migration runs.
pub fn migration_statements(schema: &str) -> (r: Vec<String>)
    ensures
        string_views(r@) == migration_statements_of(schema@),
{
    let pieces = split_chars(&chars_of(schema), &Separator::Semicolon);
    let ghost all = split_by(schema@, Separator::Semicolon);
    let mut r: Vec<String> = Vec::new();
    proof {
        reveal(Seq::filter);
        assert(views(pieces@).take(0).map_values(trimmed()) =~= Seq::<Seq<char>>::empty());
        assert(string_views(r@) =~= Seq::<Seq<char>>::empty());
    }
    for i in 0..pieces.len()
        invariant
            views(pieces@) == all,
            string_views(r@) == all.take(i as int).map_values(trimmed()).filter(
                not_blank(),
            ).map_values(terminated()),
    {
        let ghost before = all.take(i as int).map_values(trimmed());
        let ghost piece = trim_text(all[i as int]);
        assert(all.take(i + 1).map_values(trimmed()) =~= before.push(piece));
        proof {
            before.lemma_filter_push(piece, not_blank());
        }
        assert(pieces@[i as int]@ == all[i as int]);
        let t = trim_chars(&pieces[i]);
        if t.len() > 0 {
            let ghost old_r = string_views(r@);
            let mut statement: Vec<char> = Vec::new();
            append_chars(&mut statement, &t);
            statement.push(';');
            r.push(string_of(&statement));
            assert(string_views(r@) =~= old_r.push(piece.push(';')));
            assert(before.filter(not_blank()).push(piece).map_values(terminated()) =~= before.filter(
                not_blank(),
            ).map_values(terminated()).push(piece.push(';')));
        }
    }
    assert(all.take(pieces.len() as int) =~= all);
    r
}

/// The least effort a task is planned with, in minutes.
pub const MIN_TASK_EFFORT_MINUTES: i64 = 15;

/// The effort a new task is planned with: what was entered, but at least a
/// quarter of an hour.
pub fn task_effort_minutes(entered: i64) -> (r: i64)
    ensures
        r == if entered >= 15 {
            entered
        } else {
            15
        },
{
    if entered >= MIN_TASK_EFFORT_MINUTES {
        entered
    } else {
        MIN_TASK_EFFORT_MINUTES
    }
}

} // verus!
