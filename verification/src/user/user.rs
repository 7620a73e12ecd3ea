//! The table of accounts and its rules.
//!
//! The table is a vector of accounts in the order in which they were
//! registered.  Passwords are stored base64-encoded; whoever keeps the
//! table on disk reads it before, and writes it after, each operation.
use vstd::prelude::*;
use vstd::utf8::*;
use crate::text::string_from_utf8;
use crate::user::user_error::UserError;

verus! {

/// `regex::Error`: why a pattern did not compile.  Nothing is known of
/// what it holds.
#[verifier::external_type_specification]
#[verifier::external_body]
pub struct ExRegexError(regex::Error);

/// `base64::DecodeError`: why a text is no base64.  Nothing is known of
/// what it holds.
#[verifier::external_type_specification]
#[verifier::external_body]
pub struct ExDecodeError(base64::DecodeError);

/// Whether `pattern` matches somewhere in `text`, as the `regex` crate
/// decides it; nothing where the pattern does not compile.
pub uninterp spec fn regex_match(pattern: Seq<char>, text: Seq<char>) -> Option<bool>;

/// The standard base64 alphabet's text for `bytes`, without padding.
pub uninterp spec fn base64_text(bytes: Seq<u8>) -> Seq<char>;

/// The bytes that `text` stands for in unpadded standard base64, or nothing
/// where `text` is no such text.
pub uninterp spec fn base64_bytes(text: Seq<char>) -> Option<Seq<u8>>;

/// `regex::Regex::new` followed by `Regex::is_match`: compiles `pattern`
/// and says whether it matches somewhere in `text`.  The outcome depends on
/// the two texts alone.
#[verifier::external_body]
fn regex_is_match(pattern: &str, text: &str) -> (r: core::result::Result<bool, regex::Error>)
    ensures
        match r {
            Ok(b) => regex_match(pattern@, text@) == Some(b),
            Err(_) => regex_match(pattern@, text@) is None,
        },
{
    match regex::Regex::new(pattern) {
        Ok(re) => Ok(re.is_match(text)),
        Err(e) => Err(e),
    }
}

/// `Engine::encode` of `base64::engine::general_purpose::STANDARD_NO_PAD`:
/// the base64 text of the bytes of `text`, which decodes to those bytes
/// again.  The engine aborts where the length of the output overflows, so
/// the input is kept far below that.
#[verifier::external_body]
fn base64_encode(text: &str) -> (r: String)
    requires
        encode_utf8(text@).len() <= usize::MAX / 2,
    ensures
        r@ == base64_text(encode_utf8(text@)),
        base64_bytes(r@) == Some(encode_utf8(text@)),
{
    base64::Engine::encode(&base64::engine::general_purpose::STANDARD_NO_PAD, text)
}

/// `Engine::decode` of `base64::engine::general_purpose::STANDARD_NO_PAD`:
/// the bytes that the text stands for, or the engine's error.
#[verifier::external_body]
fn base64_decode(text: &str) -> (r: core::result::Result<Vec<u8>, base64::DecodeError>)
    ensures
        match r {
            Ok(bytes) => base64_bytes(text@) == Some(bytes@),
            Err(_) => base64_bytes(text@) is None,
        },
{
    base64::Engine::decode(&base64::engine::general_purpose::STANDARD_NO_PAD, text)
}

/// `str::chars().count()`: the number of characters.
pub fn char_count(text: &str) -> (n: usize)
    ensures
        n == text@.len(),
{
    text.unicode_len()
}

/// An account.  In the table its password is base64 text; an account
/// handed out by `search` or `login` carries the password itself.
#[derive(Debug, PartialEq, Eq)]
pub struct User {
    name: String,
    password: String,
    pub level: String,
}

/// The mathematical content of an account.
pub struct UserView {
    pub name: Seq<char>,
    pub password: Seq<char>,
    pub level: Seq<char>,
}

impl View for User {
    type V = UserView;

    closed spec fn view(&self) -> UserView {
        UserView { name: self.name@, password: self.password@, level: self.level@ }
    }
}

impl Clone for User {
    fn clone(&self) -> (copy: User)
        ensures
            copy@ == self@,
    {
        User { name: self.name.clone(), password: self.password.clone(), level: self.level.clone() }
    }
}

/// Where the table is kept and how many accounts it may hold.
#[derive(Debug, PartialEq, Eq)]
pub struct Config {
    pub path: String,
    pub user_max: u16,
}

impl Config {
    /// The table is `users.json` and holds fifty accounts.
    pub fn default() -> (config: Config)
        ensures
            config.path@ == "users.json"@,
            config.user_max == 50,
    {
        Config { path: "users.json".to_owned(), user_max: 50 }
    }
}

/// The pattern that a password has to match as a whole.
pub open spec fn password_pattern() -> Seq<char> {
    "^[a-zA-Z0-9_-]{4,16}$"@
}

/// The views of the accounts of a table.
pub open spec fn table_view(data: Seq<User>) -> Seq<UserView> {
    Seq::new(data.len(), |i: int| data[i]@)
}

/// The place of the first account named `name`, or the table's length
/// where there is none.
pub open spec fn first_named(table: Seq<UserView>, name: Seq<char>) -> int
    decreases table.len(),
{
    if table.len() == 0 {
        0
    } else if table[0].name == name {
        0
    } else {
        1 + first_named(table.drop_first(), name)
    }
}

/// Whether the table has an account named `name`.
pub open spec fn has_name(table: Seq<UserView>, name: Seq<char>) -> bool {
    first_named(table, name) < table.len()
}

/// What the first account named `name` is once its stored password is
/// decoded, or the error that stops the search.
pub open spec fn found(table: Seq<UserView>, name: Seq<char>) -> core::result::Result<
    UserView,
    UserErrorKind,
> {
    if !has_name(table, name) {
        Err(UserErrorKind::UserNotFound)
    } else {
        let stored = table[first_named(table, name)];
        match base64_bytes(stored.password) {
            None => Err(UserErrorKind::Base64Error),
            Some(bytes) => if valid_utf8(bytes) {
                Ok(UserView { name: stored.name, password: decode_utf8(bytes), level: stored.level })
            } else {
                Err(UserErrorKind::DecodeUtf8Error)
            },
        }
    }
}

/// The errors of a search, without what they carry.
pub enum UserErrorKind {
    UserNotFound,
    Base64Error,
    DecodeUtf8Error,
}

/// Whether `level` is one of the four permission levels.
pub open spec fn known_level(level: Seq<char>) -> bool {
    level == "0"@ || level == "1"@ || level == "2"@ || level == "3"@
}

/// The first place at which a name occurs is `first_named`.
pub proof fn lemma_first_named_is(table: Seq<UserView>, name: Seq<char>, at: int)
    requires
        0 <= at <= table.len(),
        forall|i: int| 0 <= i < at ==> (#[trigger] table[i]).name != name,
        at < table.len() ==> table[at].name == name,
    ensures
        first_named(table, name) == at,
    decreases table.len(),
{
    if table.len() > 0 && at > 0 {
        let rest = table.drop_first();
        assert(table[0].name != name);
        assert forall|i: int| 0 <= i < at - 1 implies (#[trigger] rest[i]).name != name by {
            assert(rest[i] == table[i + 1]);
        }
        lemma_first_named_is(rest, name, at - 1);
    }
}

impl User {
    /// The name of this account.
    pub fn name(&self) -> (name: &String)
        ensures
            name@ == self@.name,
    {
        &self.name
    }

    /// The password that this account carries.
    pub fn password(&self) -> (password: &String)
        ensures
            password@ == self@.password,
    {
        &self.password
    }

    /// The permission level of this account.
    pub fn level(&self) -> (level: &String)
        ensures
            level@ == self@.level,
    {
        &self.level
    }

    /// An account as it stands in the table: `password` is base64 text.
    pub fn stored(name: String, password: String, level: String) -> (user: User)
        ensures
            user@ == (UserView { name: name@, password: password@, level: level@ }),
    {
        User { name, password, level }
    }

    /// Replaces the password by its base64 text.
    fn encode(&mut self)
        requires
            encode_utf8(old(self)@.password).len() <= usize::MAX / 2,
        ensures
            final(self)@ == (UserView {
                name: old(self)@.name,
                password: base64_text(encode_utf8(old(self)@.password)),
                level: old(self)@.level,
            }),
            base64_bytes(final(self)@.password) == Some(encode_utf8(old(self)@.password)),
    {
        self.password = base64_encode(self.password.as_str());
    }

    /// Replaces the base64 text by the password that it stands for.
    fn decode(&mut self) -> (r: core::result::Result<(), UserError>)
        ensures
            final(self)@.name == old(self)@.name,
            final(self)@.level == old(self)@.level,
            match base64_bytes(old(self)@.password) {
                None => r == Err::<(), UserError>(UserError::Base64Error),
                Some(bytes) => if valid_utf8(bytes) {
                    r is Ok && final(self)@.password == decode_utf8(bytes)
                } else {
                    r == Err::<(), UserError>(UserError::DecodeUtf8Error)
                },
            },
    {
        let bytes = match base64_decode(self.password.as_str()) {
            Ok(bytes) => bytes,
            Err(_) => {
                return Err(UserError::Base64Error);
            },
        };
        match string_from_utf8(bytes) {
            Some(password) => {
                self.password = password;
                Ok(())
            },
            None => Err(UserError::DecodeUtf8Error),
        }
    }

    /// The place of the first account named `name`.
    fn position(data: &Vec<User>, name: &String) -> (at: usize)
        ensures
            at == first_named(table_view(data@), name@),
            at <= data@.len(),
    {
        let ghost table = table_view(data@);
        let mut i: usize = 0;
        while i < data.len()
            invariant
                i <= data@.len(),
                table == table_view(data@),
                forall|j: int| 0 <= j < i ==> (#[trigger] table[j]).name != name@,
            decreases data@.len() - i,
        {
            if data[i].name == *name {
                proof {
                    lemma_first_named_is(table, name@, i as int);
                }
                return i;
            }
            i += 1;
        }
        proof {
            lemma_first_named_is(table, name@, i as int);
        }
        i
    }

    /// The first account named `name`, with its password decoded.
    pub fn search(data: &Vec<User>, name: String) -> (r: core::result::Result<User, UserError>)
        ensures
            match found(table_view(data@), name@) {
                Ok(view) => r matches Ok(user) && user@ == view,
                Err(UserErrorKind::UserNotFound) => r == Err::<User, UserError>(
                    UserError::UserNotFound(name),
                ),
                Err(UserErrorKind::Base64Error) => r == Err::<User, UserError>(
                    UserError::Base64Error,
                ),
                Err(UserErrorKind::DecodeUtf8Error) => r == Err::<User, UserError>(
                    UserError::DecodeUtf8Error,
                ),
            },
    {
        let at = Self::position(data, &name);
        if at >= data.len() {
            return Err(UserError::UserNotFound(name));
        }
        let mut user = data[at].clone();
        match user.decode() {
            Ok(()) => Ok(user),
            Err(e) => Err(e),
        }
    }

    /// Logs in: the account named `name` where `password` is its password.
    pub fn login(data: &Vec<User>, name: String, password: String) -> (r: core::result::Result<
        User,
        UserError,
    >)
        ensures
            match found(table_view(data@), name@) {
                Ok(view) => if view.password == password@ {
                    r matches Ok(user) && user@ == view
                } else {
                    r == Err::<User, UserError>(UserError::WrongPassWord)
                },
                Err(UserErrorKind::UserNotFound) => r == Err::<User, UserError>(
                    UserError::UserNotFound(name),
                ),
                Err(UserErrorKind::Base64Error) => r == Err::<User, UserError>(
                    UserError::Base64Error,
                ),
                Err(UserErrorKind::DecodeUtf8Error) => r == Err::<User, UserError>(
                    UserError::DecodeUtf8Error,
                ),
            },
    {
        let user = match Self::search(data, name) {
            Ok(user) => user,
            Err(e) => {
                return Err(e);
            },
        };
        if password == user.password {
            Ok(user)
        } else {
            Err(UserError::WrongPassWord)
        }
    }

    /// Whether `level` is one of the four permission levels.
    pub fn is_level(level: &String) -> (b: bool)
        ensures
            b == known_level(level@),
    {
        *level == "0".to_owned() || *level == "1".to_owned() || *level == "2".to_owned() || *level
            == "3".to_owned()
    }

    /// Registers an account, given what the pattern for passwords said of
    /// `password`.  The checks come in this order: the password's format,
    /// the name's length, the level, the table's limit, the name's being
    /// free.  A limit of 0 is no limit; otherwise the table is full once
    /// it holds more than `user_max` accounts.
    pub fn register_checked(
        data: &mut Vec<User>,
        name: String,
        password: String,
        level: String,
        user_max: u16,
        matched: core::result::Result<bool, regex::Error>,
    ) -> (r: core::result::Result<(), UserError>)
        ensures
            r == registration(table_view(old(data)@), name, password, level, user_max, matched is Err, matched matches Ok(true)),
            r is Err ==> final(data)@ == old(data)@,
            r is Ok ==> table_view(final(data)@) == table_view(old(data)@).push(
                UserView {
                    name: name@,
                    password: base64_text(encode_utf8(password@)),
                    level: level@,
                },
            ) && base64_bytes(base64_text(encode_utf8(password@))) == Some(
                encode_utf8(password@),
            ) && final(data)@.len() == old(data)@.len() + 1 && final(data)@.subrange(
                0,
                old(data)@.len() as int,
            ) == old(data)@,
    {
        match matched {
            Err(_) => {
                return Err(UserError::RegexError);
            },
            Ok(ok) => {
                if !ok {
                    return Err(UserError::PassWordFormatError(password));
                }
            },
        }
        if password.as_str().as_bytes().len() > usize::MAX / 2 {
            return Err(UserError::PassWordFormatError(password));
        }
        let name_len = char_count(name.as_str());
        if name_len < 2 || name_len > 20 {
            return Err(UserError::NameLengthError(name_len));
        }
        if !Self::is_level(&level) {
            return Err(UserError::UnknownLevel(level));
        }
        if user_max != 0 && data.len() > user_max as usize {
            return Err(UserError::UserLimit);
        }
        let ghost table = table_view(data@);
        match Self::search(data, name.clone()) {
            Ok(_) => {
                return Err(UserError::UserNameExists(name));
            },
            Err(_) => {},
        }
        let mut user = User { name, password, level };
        user.encode();
        data.push(user);
        assert(table_view(data@) =~= table.push(user@));
        assert(data@.subrange(0, old(data)@.len() as int) =~= old(data)@);
        Ok(())
    }

    /// Registers an account named `name` with `password` and `level`.
    pub fn register(
        data: &mut Vec<User>,
        name: String,
        password: String,
        level: String,
        user_max: u16,
    ) -> (r: core::result::Result<(), UserError>)
        ensures
            r == registration(
                table_view(old(data)@),
                name,
                password,
                level,
                user_max,
                regex_match(password_pattern(), password@) is None,
                regex_match(password_pattern(), password@) == Some(true),
            ),
            r is Err ==> final(data)@ == old(data)@,
            r is Ok ==> table_view(final(data)@) == table_view(old(data)@).push(
                UserView {
                    name: name@,
                    password: base64_text(encode_utf8(password@)),
                    level: level@,
                },
            ) && base64_bytes(base64_text(encode_utf8(password@))) == Some(
                encode_utf8(password@),
            ) && final(data)@.len() == old(data)@.len() + 1 && final(data)@.subrange(
                0,
                old(data)@.len() as int,
            ) == old(data)@,
    {
        let matched = regex_is_match("^[a-zA-Z0-9_-]{4,16}$", password.as_str());
        Self::register_checked(data, name, password, level, user_max, matched)
    }

    /// Removes the first account named `name`.
    pub fn delete(data: &mut Vec<User>, name: String) -> (r: core::result::Result<(), UserError>)
        ensures
            match r {
                Ok(_) => has_name(table_view(old(data)@), name@) && final(data)@ == old(
                    data,
                )@.remove(first_named(table_view(old(data)@), name@)),
                Err(e) => !has_name(table_view(old(data)@), name@) && e == UserError::UserNotFound(
                    name,
                ) && final(data)@ == old(data)@,
            },
    {
        let at = Self::position(data, &name);
        if at < data.len() {
            data.remove(at);
            Ok(())
        } else {
            Err(UserError::UserNotFound(name))
        }
    }
}

/// Whether registering succeeds.
pub open spec fn registrable(
    table: Seq<UserView>,
    name: Seq<char>,
    password: Seq<char>,
    level: Seq<char>,
    user_max: u16,
    pattern_broken: bool,
    pattern_matched: bool,
) -> bool {
    &&& !pattern_broken
    &&& pattern_matched
    &&& encode_utf8(password).len() <= usize::MAX / 2
    &&& 2 <= name.len() <= 20
    &&& known_level(level)
    &&& !(user_max != 0 && table.len() > user_max)
    &&& !(found(table, name) is Ok)
}

/// Registering succeeds exactly where `registrable` says so.
pub proof fn lemma_registrable(
    table: Seq<UserView>,
    name: String,
    password: String,
    level: String,
    user_max: u16,
    pattern_broken: bool,
    pattern_matched: bool,
)
    ensures
        registration(table, name, password, level, user_max, pattern_broken, pattern_matched)
            is Ok <==> registrable(
            table,
            name@,
            password@,
            level@,
            user_max,
            pattern_broken,
            pattern_matched,
        ),
{
}

/// What registering decides, check by check.
pub open spec fn registration(
    table: Seq<UserView>,
    name: String,
    password: String,
    level: String,
    user_max: u16,
    pattern_broken: bool,
    pattern_matched: bool,
) -> core::result::Result<(), UserError> {
    if pattern_broken {
        Err(UserError::RegexError)
    } else if !pattern_matched || encode_utf8(password@).len() > usize::MAX / 2 {
        Err(UserError::PassWordFormatError(password))
    } else if name@.len() < 2 || name@.len() > 20 {
        Err(UserError::NameLengthError(name@.len() as usize))
    } else if !known_level(level@) {
        Err(UserError::UnknownLevel(level))
    } else if user_max != 0 && table.len() > user_max {
        Err(UserError::UserLimit)
    } else if found(table, name@) is Ok {
        Err(UserError::UserNameExists(name))
    } else {
        Ok(())
    }
}

} // verus!
