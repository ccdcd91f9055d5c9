use vstd::prelude::*;
use rand::Rng;

verus! {

/// Number of characters in a freshly drawn token code.
pub const TOKEN_LEN: usize = 14;

/// Why a gated token operation was refused.
#[derive(Debug, Clone, Copy, PartialEq, Eq, Structural)]
pub enum AuthError {
    /// The requesting token is missing, unknown, or lacks the admin flag.
    Unauthorized,
    /// The code to be minted is already a stored token.
    CodeInUse,
}

/// An ASCII letter or digit.
pub open spec fn is_alphanumeric(c: char) -> bool {
    ('a' <= c && c <= 'z') || ('A' <= c && c <= 'Z') || ('0' <= c && c <= '9')
}

/// Relies on `rand::rng().sample_iter(&Alphanumeric)`: every sampled byte is
/// an ASCII letter or digit, and `take(len)` keeps exactly `len` of them.
#[verifier::external_body]
fn random_code(len: usize) -> (r: String)
    ensures
        r@.len() == len,
        forall|i: int| 0 <= i < r@.len() ==> is_alphanumeric(#[trigger] r@[i]),
{
    rand::rng().sample_iter(&rand::distr::Alphanumeric).take(len).map(char::from).collect::<String>()
}

/// Session tokens and their privilege flag. The admin token made at
/// construction is the only admin token and is never removed.
pub struct AuthStore {
    admin: String,
    tokens: Vec<(String, bool)>,
    model: Ghost<Map<Seq<char>, bool>>,
}

impl View for AuthStore {
    type V = Map<Seq<char>, bool>;

    closed spec fn view(&self) -> Map<Seq<char>, bool> {
        self.model@
    }
}

impl AuthStore {
    /// The code of the admin token.
    pub closed spec fn admin_code(&self) -> Seq<char> {
        self.admin@
    }

    pub closed spec fn inv(&self) -> bool {
        &&& forall|i: int, j: int|
            0 <= i < self.tokens@.len() && 0 <= j < self.tokens@.len() && i != j
                ==> self.tokens@[i].0@ != self.tokens@[j].0@
        &&& forall|i: int|
            0 <= i < self.tokens@.len() ==> #[trigger] self.model@.contains_key(self.tokens@[i].0@)
                && self.model@[self.tokens@[i].0@] == self.tokens@[i].1
        &&& forall|k: Seq<char>|
            #[trigger] self.model@.contains_key(k) ==> exists|i: int|
                0 <= i < self.tokens@.len() && self.tokens@[i].0@ == k
    }

    /// The store is consistent: the admin token is present and is the only
    /// token with the admin flag.
    pub open spec fn wf(&self) -> bool {
        &&& self.inv()
        &&& self@.contains_key(self.admin_code())
        &&& self@[self.admin_code()]
        &&& forall|k: Seq<char>|
            #[trigger] self@.contains_key(k) && k != self.admin_code() ==> !self@[k]
    }

    /// `token` is stored and, where `require_admin` holds, carries the admin flag.
    pub open spec fn allows(&self, token: Seq<char>, require_admin: bool) -> bool {
        self@.contains_key(token) && (!require_admin || self@[token])
    }

    /// The admin token passes every gate; any other stored token passes only
    /// the non-admin gate; an unknown token passes none.
    pub proof fn lemma_authorize_levels(&self, token: Seq<char>)
        requires
            self.wf(),
        ensures
            self.allows(self.admin_code(), true),
            self.allows(self.admin_code(), false),
            self@.contains_key(token) && token != self.admin_code() ==> !self.allows(token, true)
                && self.allows(token, false),
            !self@.contains_key(token) ==> !self.allows(token, false) && !self.allows(token, true),
    {
    }

    /// A store holding only the admin token `admin_code`.
    pub fn new(admin_code: String) -> (r: Self)
        ensures
            r.wf(),
            r.admin_code() == admin_code@,
            r@ == map![admin_code@ => true],
    {
        let ghost code = admin_code@;
        let ghost m = map![code => true];
        let tokens = vec![(admin_code.clone(), true)];
        let r = AuthStore { admin: admin_code, tokens, model: Ghost(m) };
        assert(r.tokens@[0].0@ == code);
        r
    }

    /// A store whose admin token is a freshly drawn code of `TOKEN_LEN`
    /// letters and digits.
    pub fn new_random() -> (r: Self)
        ensures
            r.wf(),
            r@ == map![r.admin_code() => true],
            r.admin_code().len() == TOKEN_LEN,
            forall|i: int| 0 <= i < r.admin_code().len() ==> is_alphanumeric(#[trigger] r.admin_code()[i]),
    {
        let code = random_code(TOKEN_LEN);
        AuthStore::new(code)
    }

    /// The code of the admin token.
    pub fn admin(&self) -> (r: &String)
        ensures
            r@ == self.admin_code(),
    {
        &self.admin
    }

    /// Adds `code` as a non-admin token, on behalf of the admin token
    /// `requester`, and returns it.
    pub fn mint(&mut self, requester: &str, code: String) -> (r: Result<String, AuthError>)
        requires
            old(self).wf(),
        ensures
            final(self).wf(),
            final(self).admin_code() == old(self).admin_code(),
            !old(self).allows(requester@, true) ==> r == Err::<String, AuthError>(
                AuthError::Unauthorized,
            ),
            old(self).allows(requester@, true) && old(self)@.contains_key(code@) ==> r == Err::<
                String,
                AuthError,
            >(AuthError::CodeInUse),
            old(self).allows(requester@, true) && !old(self)@.contains_key(code@) ==> r is Ok,
            match r {
                Ok(c) => c@ == code@ && final(self)@ == old(self)@.insert(code@, false),
                Err(_) => final(self)@ == old(self)@,
            },
    {
        if !self.authorize(requester, true) {
            return Err(AuthError::Unauthorized);
        }
        if self.find(code.as_str()).is_some() {
            return Err(AuthError::CodeInUse);
        }
        let ghost c = code@;
        let ghost old_tokens = self.tokens@;
        let ghost old_model = self.model@;
        self.tokens.push((code.clone(), false));
        self.model = Ghost(old_model.insert(c, false));
        assert(self.tokens@[old_tokens.len() as int].0@ == c);
        assert forall|k: Seq<char>| #[trigger] self.model@.contains_key(k) implies exists|i: int|
            0 <= i < self.tokens@.len() && self.tokens@[i].0@ == k by {
            if k != c {
                let i = choose|i: int| 0 <= i < old_tokens.len() && old_tokens[i].0@ == k;
                assert(self.tokens@[i] == old_tokens[i]);
            }
        };
        assert(c != self.admin_code());
        Ok(code)
    }

    /// Adds a freshly drawn code of `TOKEN_LEN` letters and digits as a
    /// non-admin token, on behalf of the admin token `requester`. The draw
    /// may meet a stored code, which is then reported as `CodeInUse`; so an
    /// admin requester succeeds whenever no stored token has that shape.
    pub fn mint_random(&mut self, requester: &str) -> (r: Result<String, AuthError>)
        requires
            old(self).wf(),
        ensures
            final(self).wf(),
            final(self).admin_code() == old(self).admin_code(),
            !old(self).allows(requester@, true) <==> r == Err::<String, AuthError>(
                AuthError::Unauthorized,
            ),
            match r {
                Ok(c) => {
                    &&& c@.len() == TOKEN_LEN
                    &&& forall|i: int| 0 <= i < c@.len() ==> is_alphanumeric(#[trigger] c@[i])
                    &&& !old(self)@.contains_key(c@)
                    &&& final(self)@ == old(self)@.insert(c@, false)
                },
                Err(_) => final(self)@ == old(self)@,
            },
            r == Err::<String, AuthError>(AuthError::CodeInUse) ==> exists|c: Seq<char>|
                c.len() == TOKEN_LEN && (forall|i: int|
                    0 <= i < c.len() ==> is_alphanumeric(#[trigger] c[i]))
                    && #[trigger] old(self)@.contains_key(c),
    {
        let code = random_code(TOKEN_LEN);
        let ghost drawn = code@;
        let r = self.mint(requester, code);
        proof {
            if r == Err::<String, AuthError>(AuthError::CodeInUse) {
                assert(old(self)@.contains_key(drawn));
            }
        }
        r
    }

    /// Removes every non-admin token, on behalf of the admin token
    /// `requester`. Only the admin token remains.
    pub fn revoke_non_admin(&mut self, requester: &str) -> (r: Result<(), AuthError>)
        requires
            old(self).wf(),
        ensures
            final(self).wf(),
            final(self).admin_code() == old(self).admin_code(),
            old(self).allows(requester@, true) ==> r is Ok && final(self)@ == map![old(self).admin_code() => true],
            !old(self).allows(requester@, true) ==> r == Err::<(), AuthError>(
                AuthError::Unauthorized,
            ) && final(self)@ == old(self)@,
    {
        if !self.authorize(requester, true) {
            return Err(AuthError::Unauthorized);
        }
        let ghost a = self.admin_code();
        let ghost m = map![a => true];
        let tokens = vec![(self.admin.clone(), true)];
        self.tokens = tokens;
        self.model = Ghost(m);
        assert(self.tokens@[0].0@ == a);
        Ok(())
    }

    fn find(&self, token: &str) -> (r: Option<usize>)
        requires
            self.inv(),
        ensures
            match r {
                Some(i) => i < self.tokens@.len() && self.tokens@[i as int].0@ == token@,
                None => !self@.contains_key(token@),
            },
    {
        let wanted = token.to_owned();
        let mut i: usize = 0;
        while i < self.tokens.len()
            invariant
                self.inv(),
                wanted@ == token@,
                i <= self.tokens@.len(),
                forall|j: int| 0 <= j < i ==> self.tokens@[j].0@ != token@,
            decreases self.tokens@.len() - i,
        {
            if self.tokens[i].0 == wanted {
                return Some(i);
            }
            i = i + 1;
        }
        None
    }

    /// True iff `token` is stored and, where `require_admin` holds, is the
    /// admin token.
    pub fn authorize(&self, token: &str, require_admin: bool) -> (r: bool)
        requires
            self.wf(),
        ensures
            r == self.allows(token@, require_admin),
    {
        match self.find(token) {
            Some(i) => !require_admin || self.tokens[i].1,
            None => false,
        }
    }
}

} // verus!
