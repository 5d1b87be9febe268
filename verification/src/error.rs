//! The error taxonomy: category codes with canonical wire tokens, and the
//! structured error payload that every failure carries.

use vstd::prelude::*;

verus! {

/// Closed set of failure categories, each with a canonical
/// uppercase-with-underscores wire token.
#[derive(Clone, Copy, PartialEq, Eq, Structural, Debug)]
pub enum ErrorCode {
    DbNotFound,
    DbQueryFailed,
    DbConnectionFailed,
    DbConstraintViolation,
    ValidationFailed,
    ResourceNotFound,
    SerializationFailed,
    InternalError,
}

impl ErrorCode {
    /// The canonical wire token of this category, as a character sequence.
    pub open spec fn spec_token(self) -> Seq<char> {
        match self {
            ErrorCode::DbNotFound => "DB_NOT_FOUND"@,
            ErrorCode::DbQueryFailed => "DB_QUERY_FAILED"@,
            ErrorCode::DbConnectionFailed => "DB_CONNECTION_FAILED"@,
            ErrorCode::DbConstraintViolation => "DB_CONSTRAINT_VIOLATION"@,
            ErrorCode::ValidationFailed => "VALIDATION_FAILED"@,
            ErrorCode::ResourceNotFound => "RESOURCE_NOT_FOUND"@,
            ErrorCode::SerializationFailed => "SERIALIZATION_FAILED"@,
            ErrorCode::InternalError => "INTERNAL_ERROR"@,
        }
    }

    /// String projection: the canonical wire token.
    pub fn as_str(&self) -> (r: &'static str)
        ensures
            r@ == self.spec_token(),
    {
        match self {
            ErrorCode::DbNotFound => "DB_NOT_FOUND",
            ErrorCode::DbQueryFailed => "DB_QUERY_FAILED",
            ErrorCode::DbConnectionFailed => "DB_CONNECTION_FAILED",
            ErrorCode::DbConstraintViolation => "DB_CONSTRAINT_VIOLATION",
            ErrorCode::ValidationFailed => "VALIDATION_FAILED",
            ErrorCode::ResourceNotFound => "RESOURCE_NOT_FOUND",
            ErrorCode::SerializationFailed => "SERIALIZATION_FAILED",
            ErrorCode::InternalError => "INTERNAL_ERROR",
        }
    }
}

/// Distinct categories have distinct wire tokens, so a token read back from
/// the wire identifies its category unambiguously.
pub proof fn lemma_tokens_distinct(a: ErrorCode, b: ErrorCode)
    ensures
        a.spec_token() == b.spec_token() ==> a == b,
{
    reveal_strlit("DB_NOT_FOUND");
    reveal_strlit("DB_QUERY_FAILED");
    reveal_strlit("DB_CONNECTION_FAILED");
    reveal_strlit("DB_CONSTRAINT_VIOLATION");
    reveal_strlit("VALIDATION_FAILED");
    reveal_strlit("RESOURCE_NOT_FOUND");
    reveal_strlit("SERIALIZATION_FAILED");
    reveal_strlit("INTERNAL_ERROR");
    if a.spec_token() == b.spec_token() && a != b {
        assert(a.spec_token().len() == b.spec_token().len());
        assert(a.spec_token()[0] == b.spec_token()[0]);
        assert(a.spec_token()[3] == b.spec_token()[3]);
    }
}

/// The diagnostic context attached to an error: a small string-to-string
/// mapping where a later write to a key overrides an earlier one.
#[derive(Debug)]
pub struct Context {
    entries: Vec<(String, String)>,
}

/// The mapping that a sequence of context entries denotes: later entries
/// override earlier ones.
pub open spec fn ctx_model(s: Seq<(String, String)>) -> Map<Seq<char>, Seq<char>>
    decreases s.len(),
{
    if s.len() == 0 {
        Map::empty()
    } else {
        ctx_model(s.drop_last()).insert(s.last().0@, s.last().1@)
    }
}

/// Context entries carry pairwise-distinct keys.
pub open spec fn ctx_keys_distinct(s: Seq<(String, String)>) -> bool {
    forall|i: int, j: int|
        0 <= i < j < s.len() ==> (#[trigger] s[i]).0@ != (#[trigger] s[j]).0@
}

/// A key of the model is a key of some entry, and with distinct keys that
/// entry's value is the model's.
pub proof fn lemma_ctx_model_entries(s: Seq<(String, String)>, k: Seq<char>)
    ensures
        ctx_model(s).contains_key(k) <==> exists|i: int| 0 <= i < s.len() && (#[trigger] s[i]).0@ == k,
        forall|i: int|
            0 <= i < s.len() && (#[trigger] s[i]).0@ == k && ctx_keys_distinct(s)
                ==> ctx_model(s).contains_key(k) && ctx_model(s)[k] == s[i].1@,
    decreases s.len(),
{
    if s.len() > 0 {
        lemma_ctx_model_entries(s.drop_last(), k);
        if s.last().0@ == k {
            assert(s[s.len() - 1].0@ == k);
        }
        assert(forall|i: int| 0 <= i < s.len() - 1 ==> #[trigger] s[i] == s.drop_last()[i]);
    }
}

impl Context {
    /// The entries, in insertion order.
    pub closed spec fn entries_seq(self) -> Seq<(String, String)> {
        self.entries@
    }

    /// The mapping this context denotes.
    pub open spec fn model(self) -> Map<Seq<char>, Seq<char>> {
        ctx_model(self.entries_seq())
    }

    /// Keys are distinct and at least one entry is present.
    pub open spec fn wf(self) -> bool {
        &&& ctx_keys_distinct(self.entries_seq())
        &&& self.entries_seq().len() > 0
    }

    /// The number of entries.
    pub fn len(&self) -> (r: usize)
        ensures
            r == self.entries_seq().len(),
    {
        self.entries.len()
    }

    /// The value last written for `key`, if any.
    pub fn get(&self, key: &str) -> (r: Option<&String>)
        requires
            self.wf(),
        ensures
            match r {
                Some(v) => self.model().contains_key(key@) && v@ == self.model()[key@],
                None => !self.model().contains_key(key@),
            },
    {
        let k: String = key.to_owned();
        let ghost s = self.entries_seq();
        proof {
            lemma_ctx_model_entries(s, key@);
        }
        let n = self.entries.len();
        let mut i: usize = 0;
        while i < n
            invariant
                self.wf(),
                n == s.len(),
                i <= n,
                s == self.entries_seq(),
                k@ == key@,
                forall|j: int| 0 <= j < i ==> (#[trigger] s[j]).0@ != key@,
            decreases n - i,
        {
            if self.entries[i].0 == k {
                proof {
                    lemma_ctx_model_entries(s, key@);
                }
                return Some(&self.entries[i].1);
            }
            i += 1;
        }
        None
    }

    /// A copy of the entries, in insertion order.
    pub fn to_entries(&self) -> (r: Vec<(String, String)>)
        ensures
            r@ == self.entries_seq(),
    {
        let c = self.clone();
        c.entries
    }

    /// A context built from entries with pairwise-distinct keys.
    pub fn from_entries(entries: Vec<(String, String)>) -> (r: Context)
        requires
            ctx_keys_distinct(entries@),
            entries@.len() > 0,
        ensures
            r.wf(),
            r.entries_seq() == entries@,
    {
        Context { entries }
    }

    /// A context holding exactly one entry.
    pub fn single(key: &str, value: &str) -> (r: Context)
        ensures
            r.wf(),
            r.model() == Map::<Seq<char>, Seq<char>>::empty().insert(key@, value@),
            r.entries_seq().len() == 1,
    {
        let mut entries: Vec<(String, String)> = Vec::new();
        entries.push((key.to_owned(), value.to_owned()));
        proof {
            assert(entries@.drop_last() =~= Seq::<(String, String)>::empty());
            assert(ctx_model(entries@.drop_last()) =~= Map::<Seq<char>, Seq<char>>::empty());
            assert(ctx_model(entries@) =~= Map::<Seq<char>, Seq<char>>::empty().insert(
                key@,
                value@,
            ));
        }
        Context { entries }
    }

    /// Merge one entry, overwriting any prior value for the same key.
    pub fn put(&mut self, key: &str, value: &str)
        requires
            old(self).wf(),
        ensures
            final(self).wf(),
            final(self).model() == old(self).model().insert(key@, value@),
    {
        let k: String = key.to_owned();
        let v: String = value.to_owned();
        let ghost s = self.entries_seq();
        let n = self.entries.len();
        let mut i: usize = 0;
        while i < n
            invariant
                ctx_keys_distinct(s),
                n == s.len(),
                i <= n,
                s == self.entries_seq(),
                s == old(self).entries_seq(),
                k@ == key@,
                v@ == value@,
                forall|j: int| 0 <= j < i ==> (#[trigger] s[j]).0@ != key@,
            decreases n - i,
        {
            if self.entries[i].0 == k {
                let ghost kv: (String, String) = (k, v);
                self.entries[i] = (k, v);
                proof {
                    assert(self.entries@ =~= s.update(i as int, kv));
                    lemma_ctx_model_update(s, i as int, kv);
                }
                return;
            }
            i += 1;
        }
        self.entries.push((k, v));
        proof {
            assert(self.entries@.drop_last() =~= s);
            assert(self.model() =~= ctx_model(s).insert(key@, value@));
        }
    }
}

/// Replacing the unique entry that holds a key is, on the denoted mapping,
/// an insert at that key.
proof fn lemma_ctx_model_update(s: Seq<(String, String)>, i: int, p: (String, String))
    requires
        0 <= i < s.len(),
        ctx_keys_distinct(s),
        s[i].0@ == p.0@,
    ensures
        ctx_model(s.update(i, p)) == ctx_model(s).insert(p.0@, p.1@),
        ctx_keys_distinct(s.update(i, p)),
    decreases s.len(),
{
    let s2 = s.update(i, p);
    assert forall|x: int, y: int| 0 <= x < y < s2.len() implies (#[trigger] s2[x]).0@
        != (#[trigger] s2[y]).0@ by {
        assert(s[x].0@ != s[y].0@);
    }
    if i == s.len() - 1 {
        assert(s2.drop_last() =~= s.drop_last());
        assert(ctx_model(s2) =~= ctx_model(s).insert(p.0@, p.1@));
    } else {
        assert(s2.drop_last() =~= s.drop_last().update(i, p));
        assert(ctx_keys_distinct(s.drop_last())) by {
            assert forall|x: int, y: int|
                0 <= x < y < s.drop_last().len() implies (#[trigger] s.drop_last()[x]).0@
                != (#[trigger] s.drop_last()[y]).0@ by {
                assert(s[x].0@ != s[y].0@);
            }
        }
        assert(s.drop_last()[i] == s[i]);
        lemma_ctx_model_update(s.drop_last(), i, p);
        assert(s.last().0@ != p.0@) by {
            assert(s[i].0@ != s[s.len() - 1].0@);
        }
        assert(ctx_model(s2) == ctx_model(s2.drop_last()).insert(s2.last().0@, s2.last().1@));
        assert(s2.last() == s.last());
        assert(ctx_model(s2) =~= ctx_model(s).insert(p.0@, p.1@));
    }
}

/// Structured, wire-serializable error payload: a category code and a
/// message, always present, plus optional diagnostic attachments.
#[derive(Debug)]
pub struct ErrorValue {
    pub code: ErrorCode,
    pub message: String,
    pub details: Option<String>,
    pub field: Option<String>,
    pub cause: Option<String>,
    pub context: Option<Context>,
}

/// The context mapping after merging one entry into an optional context.
pub open spec fn ctx_after(
    ctx: Option<Context>,
    key: Seq<char>,
    value: Seq<char>,
) -> Map<Seq<char>, Seq<char>> {
    match ctx {
        None => Map::<Seq<char>, Seq<char>>::empty().insert(key, value),
        Some(c) => c.model().insert(key, value),
    }
}

impl ErrorValue {
    /// The message is non-empty, and a context, when attached, is well formed
    /// and non-empty.
    pub open spec fn wf(self) -> bool {
        &&& self.message@.len() > 0
        &&& match self.context {
            Some(c) => c.wf(),
            None => true,
        }
    }

    /// Construct with all optional fields absent.
    pub fn new(code: ErrorCode, message: &str) -> (r: ErrorValue)
        requires
            message@.len() > 0,
        ensures
            r.code == code,
            r.message@ == message@,
            r.details is None,
            r.field is None,
            r.cause is None,
            r.context is None,
            r.wf(),
    {
        ErrorValue {
            code,
            message: message.to_owned(),
            details: None,
            field: None,
            cause: None,
            context: None,
        }
    }

    /// Attach (or overwrite) the free-form details text.
    pub fn with_details(self, details: &str) -> (r: ErrorValue)
        ensures
            r.code == self.code,
            r.message == self.message,
            r.details matches Some(d) && d@ == details@,
            r.field == self.field,
            r.cause == self.cause,
            r.context == self.context,
            self.wf() ==> r.wf(),
    {
        ErrorValue { details: Some(details.to_owned()), ..self }
    }

    /// Attach (or overwrite) the name of the input field at fault.
    pub fn with_field(self, field: &str) -> (r: ErrorValue)
        ensures
            r.code == self.code,
            r.message == self.message,
            r.details == self.details,
            r.field matches Some(f) && f@ == field@,
            r.cause == self.cause,
            r.context == self.context,
            self.wf() ==> r.wf(),
    {
        ErrorValue { field: Some(field.to_owned()), ..self }
    }

    /// Attach (or overwrite) the description of the underlying cause.
    pub fn with_cause(self, cause: &str) -> (r: ErrorValue)
        ensures
            r.code == self.code,
            r.message == self.message,
            r.details == self.details,
            r.field == self.field,
            r.cause matches Some(c) && c@ == cause@,
            r.context == self.context,
            self.wf() ==> r.wf(),
    {
        ErrorValue { cause: Some(cause.to_owned()), ..self }
    }

    /// Merge one entry into the context mapping, overwriting any prior value
    /// for the same key.
    pub fn with_context(self, key: &str, value: &str) -> (r: ErrorValue)
        requires
            self.wf(),
        ensures
            r.code == self.code,
            r.message == self.message,
            r.details == self.details,
            r.field == self.field,
            r.cause == self.cause,
            r.context matches Some(c) && c.model() == ctx_after(self.context, key@, value@),
            r.wf(),
    {
        let context = match self.context {
            None => Some(Context::single(key, value)),
            Some(mut c) => {
                c.put(key, value);
                Some(c)
            },
        };
        ErrorValue { context, ..self }
    }
}

/// Both optional contexts are absent, or both are present with the same
/// entries.
pub open spec fn ctx_like(a: Option<Context>, b: Option<Context>) -> bool {
    match (a, b) {
        (Some(x), Some(y)) => x.entries_seq() == y.entries_seq(),
        (None, None) => true,
        _ => false,
    }
}

impl Clone for ErrorValue {
    fn clone(&self) -> (r: Self)
        ensures
            r.code == self.code,
            r.message == self.message,
            r.details == self.details,
            r.field == self.field,
            r.cause == self.cause,
            ctx_like(r.context, self.context),
            self.wf() ==> r.wf(),
    {
        ErrorValue {
            code: self.code,
            message: self.message.clone(),
            details: clone_opt(&self.details),
            field: clone_opt(&self.field),
            cause: clone_opt(&self.cause),
            context: match &self.context {
                Some(c) => Some(c.clone()),
                None => None,
            },
        }
    }
}

impl Clone for Context {
    fn clone(&self) -> (r: Self)
        ensures
            r.entries_seq() == self.entries_seq(),
    {
        let mut entries: Vec<(String, String)> = Vec::new();
        let n = self.entries.len();
        let mut i: usize = 0;
        while i < n
            invariant
                i <= n,
                n == self.entries@.len(),
                entries@ =~= self.entries@.subrange(0, i as int),
            decreases n - i,
        {
            entries.push((self.entries[i].0.clone(), self.entries[i].1.clone()));
            i += 1;
        }
        proof {
            assert(entries@ =~= self.entries@);
        }
        Context { entries }
    }
}

/// Clone an optional string, keeping its value.
fn clone_opt(o: &Option<String>) -> (r: Option<String>)
    ensures
        r == *o,
{
    match o {
        Some(s) => Some(s.clone()),
        None => None,
    }
}

/// Tagged union over failure origins, one variant per broad category, each
/// wrapping one [`ErrorValue`].
#[derive(Debug)]
pub enum AppError {
    Database(ErrorValue),
    Validation(ErrorValue),
    NotFound(ErrorValue),
    Serialization(ErrorValue),
    Logging(ErrorValue),
    LockPoisoned(ErrorValue),
}

impl AppError {
    /// The wrapped error payload.
    pub open spec fn value(self) -> ErrorValue {
        match self {
            AppError::Database(v) => v,
            AppError::Validation(v) => v,
            AppError::NotFound(v) => v,
            AppError::Serialization(v) => v,
            AppError::Logging(v) => v,
            AppError::LockPoisoned(v) => v,
        }
    }

    /// The variant's category is consistent with the wrapped code: each
    /// variant carries a code drawn from its own subset.
    pub open spec fn wf(self) -> bool {
        &&& self.value().wf()
        &&& match self {
            AppError::Database(v) => v.code == ErrorCode::DbQueryFailed || v.code
                == ErrorCode::DbConnectionFailed || v.code == ErrorCode::DbConstraintViolation,
            AppError::Validation(v) => v.code == ErrorCode::ValidationFailed,
            AppError::NotFound(v) => v.code == ErrorCode::DbNotFound || v.code
                == ErrorCode::ResourceNotFound,
            AppError::Serialization(v) => v.code == ErrorCode::SerializationFailed,
            AppError::Logging(v) => v.code == ErrorCode::InternalError,
            AppError::LockPoisoned(v) => v.code == ErrorCode::InternalError,
        }
    }

    /// Pure projection of the wrapped payload.
    pub fn to_value(&self) -> (r: &ErrorValue)
        ensures
            *r == self.value(),
    {
        match self {
            AppError::Database(v) => v,
            AppError::Validation(v) => v,
            AppError::NotFound(v) => v,
            AppError::Serialization(v) => v,
            AppError::Logging(v) => v,
            AppError::LockPoisoned(v) => v,
        }
    }
}

} // verus!
