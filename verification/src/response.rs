//! The wire representation of an error: a JSON-shaped object holding the
//! canonical code token and the message always, and each optional field
//! only when it was attached. Encoding, decoding, and the round trip
//! between them live here, together with the JSON text rendering.

use vstd::prelude::*;

use crate::error::{
    ctx_keys_distinct, ctx_model, AppError, Context, ErrorCode, ErrorValue,
};
use crate::text::push_char;

verus! {

/// One value of the wire object: a text field, or the context table.
#[derive(Debug)]
pub enum ResponseValue {
    Text(String),
    Object(Vec<(String, String)>),
}

/// A JSON-shaped object: an ordered list of key/value fields.
#[derive(Debug)]
pub struct Response {
    fields: Vec<(String, ResponseValue)>,
}

/// What one wire value denotes.
pub enum ValModel {
    Text(Seq<char>),
    Object(Seq<(Seq<char>, Seq<char>)>),
}

/// The entry views of a table.
pub open spec fn pairs_view(s: Seq<(String, String)>) -> Seq<(Seq<char>, Seq<char>)> {
    s.map_values(|p: (String, String)| (p.0@, p.1@))
}

/// What a wire value denotes.
pub open spec fn vm(v: ResponseValue) -> ValModel {
    match v {
        ResponseValue::Text(s) => ValModel::Text(s@),
        ResponseValue::Object(e) => ValModel::Object(pairs_view(e@)),
    }
}

/// The mapping a sequence of entry views denotes, later entries overriding
/// earlier ones.
pub open spec fn view_pairs_model(s: Seq<(Seq<char>, Seq<char>)>) -> Map<Seq<char>, Seq<char>>
    decreases s.len(),
{
    if s.len() == 0 {
        Map::empty()
    } else {
        view_pairs_model(s.drop_last()).insert(s.last().0, s.last().1)
    }
}

/// Entry views carry pairwise-distinct keys.
pub open spec fn view_pairs_distinct(s: Seq<(Seq<char>, Seq<char>)>) -> bool {
    forall|i: int, j: int| 0 <= i < j < s.len() ==> (#[trigger] s[i]).0 != (#[trigger] s[j]).0
}

/// The entries of a context denote, at the view level, the same mapping the
/// context denotes.
pub proof fn lemma_view_pairs_model(s: Seq<(String, String)>)
    ensures
        view_pairs_model(pairs_view(s)) == ctx_model(s),
    decreases s.len(),
{
    if s.len() == 0 {
        assert(pairs_view(s) =~= Seq::<(Seq<char>, Seq<char>)>::empty());
    } else {
        lemma_view_pairs_model(s.drop_last());
        assert(pairs_view(s).drop_last() =~= pairs_view(s.drop_last()));
        assert(pairs_view(s).last() == (s.last().0@, s.last().1@));
    }
}

/// The field keys that the wire form knows.
pub open spec fn known_key(k: Seq<char>) -> bool {
    ||| k == "code"@
    ||| k == "message"@
    ||| k == "details"@
    ||| k == "field"@
    ||| k == "cause"@
    ||| k == "context"@
}

/// Some field holds this key.
pub open spec fn has_field(m: Seq<(Seq<char>, ValModel)>, k: Seq<char>) -> bool {
    exists|i: int| 0 <= i < m.len() && (#[trigger] m[i]).0 == k
}

/// The value of the field holding this key.
pub open spec fn field_value(m: Seq<(Seq<char>, ValModel)>, k: Seq<char>) -> ValModel {
    (m[choose|i: int| 0 <= i < m.len() && (#[trigger] m[i]).0 == k]).1
}

/// Field keys are pairwise distinct.
pub open spec fn keys_distinct(m: Seq<(Seq<char>, ValModel)>) -> bool {
    forall|i: int, j: int| 0 <= i < j < m.len() ==> (#[trigger] m[i]).0 != (#[trigger] m[j]).0
}

/// What an error value denotes: its category, its message, and exactly the
/// optional fields that were attached, the context as the mapping it
/// denotes.
pub struct ErrorModel {
    pub code: ErrorCode,
    pub message: Seq<char>,
    pub details: Option<Seq<char>>,
    pub field: Option<Seq<char>>,
    pub cause: Option<Seq<char>>,
    pub context: Option<Map<Seq<char>, Seq<char>>>,
}

/// The view of an optional string.
pub open spec fn opt_view(o: Option<String>) -> Option<Seq<char>> {
    match o {
        Some(s) => Some(s@),
        None => None,
    }
}

/// What an error value denotes.
pub open spec fn ev_model(v: ErrorValue) -> ErrorModel {
    ErrorModel {
        code: v.code,
        message: v.message@,
        details: opt_view(v.details),
        field: opt_view(v.field),
        cause: opt_view(v.cause),
        context: match v.context {
            Some(c) => Some(c.model()),
            None => None,
        },
    }
}

/// A model with a non-empty message, as every constructed error value has.
pub open spec fn wf_model(e: ErrorModel) -> bool {
    e.message.len() > 0
}

/// The wire object `m` is an encoding of the model `e`: the code token and
/// the message are present, each optional field is present exactly when
/// attached and holds its contents, the context table denotes the context
/// mapping, no other key appears, and no key repeats.
pub open spec fn encodes(e: ErrorModel, m: Seq<(Seq<char>, ValModel)>) -> bool {
    &&& keys_distinct(m)
    &&& forall|i: int| 0 <= i < m.len() ==> known_key((#[trigger] m[i]).0)
    &&& has_field(m, "code"@) && field_value(m, "code"@) == ValModel::Text(e.code.spec_token())
    &&& has_field(m, "message"@) && field_value(m, "message"@) == ValModel::Text(e.message)
    &&& match e.details {
        Some(d) => has_field(m, "details"@) && field_value(m, "details"@) == ValModel::Text(d),
        None => !has_field(m, "details"@),
    }
    &&& match e.field {
        Some(f) => has_field(m, "field"@) && field_value(m, "field"@) == ValModel::Text(f),
        None => !has_field(m, "field"@),
    }
    &&& match e.cause {
        Some(c) => has_field(m, "cause"@) && field_value(m, "cause"@) == ValModel::Text(c),
        None => !has_field(m, "cause"@),
    }
    &&& match e.context {
        Some(cm) => has_field(m, "context"@) && (field_value(m, "context"@) matches
            ValModel::Object(ps) && view_pairs_distinct(ps) && ps.len() > 0
            && view_pairs_model(ps) == cm),
        None => !has_field(m, "context"@),
    }
}

/// On an object with distinct keys, the field at `i` is the field its key
/// finds.
pub proof fn lemma_field_at(m: Seq<(Seq<char>, ValModel)>, i: int)
    requires
        keys_distinct(m),
        0 <= i < m.len(),
    ensures
        has_field(m, m[i].0),
        field_value(m, m[i].0) == m[i].1,
{
    let k = m[i].0;
    assert(0 <= i < m.len() && m[i].0 == k);
    let c = choose|j: int| 0 <= j < m.len() && (#[trigger] m[j]).0 == k;
    if c != i {
        if c < i {
            assert(m[c].0 != m[i].0);
        } else {
            assert(m[i].0 != m[c].0);
        }
    }
}

/// The six known keys are pairwise distinct.
pub proof fn lemma_known_keys_distinct()
    ensures
        "code"@ != "message"@,
        "code"@ != "details"@,
        "code"@ != "field"@,
        "code"@ != "cause"@,
        "code"@ != "context"@,
        "message"@ != "details"@,
        "message"@ != "field"@,
        "message"@ != "cause"@,
        "message"@ != "context"@,
        "details"@ != "field"@,
        "details"@ != "cause"@,
        "details"@ != "context"@,
        "field"@ != "cause"@,
        "field"@ != "context"@,
        "cause"@ != "context"@,
{
    reveal_strlit("code");
    reveal_strlit("message");
    reveal_strlit("details");
    reveal_strlit("field");
    reveal_strlit("cause");
    reveal_strlit("context");
    assert("code"@.len() == 4);
    assert("message"@.len() == 7);
    assert("details"@.len() == 7);
    assert("field"@.len() == 5);
    assert("cause"@.len() == 5);
    assert("context"@.len() == 7);
    assert("message"@[0] == 'm');
    assert("details"@[0] == 'd');
    assert("context"@[0] == 'c');
    assert("field"@[0] == 'f');
    assert("cause"@[0] == 'c');
}

impl Response {
    /// What this object denotes: its fields' keys and value models, in
    /// order.
    pub closed spec fn model(self) -> Seq<(Seq<char>, ValModel)> {
        self.fields@.map_values(|p: (String, ResponseValue)| (p.0@, vm(p.1)))
    }

    /// The text field under this key, on an object with distinct keys.
    pub fn get_str(&self, key: &str) -> (r: Option<&String>)
        requires
            keys_distinct(self.model()),
        ensures
            match r {
                Some(v) => has_field(self.model(), key@) && field_value(self.model(), key@)
                    == ValModel::Text(v@),
                None => !has_field(self.model(), key@) || field_value(self.model(), key@) matches
                    ValModel::Object(_),
            },
    {
        let ghost m = self.model();
        let k: String = key.to_owned();
        let n = self.fields.len();
        let mut i: usize = 0;
        while i < n
            invariant
                i <= n,
                n == m.len(),
                m == self.model(),
                keys_distinct(m),
                k@ == key@,
                forall|j: int| 0 <= j < i ==> (#[trigger] m[j]).0 != key@,
            decreases n - i,
        {
            proof {
                assert(m[i as int] == (self.fields@[i as int].0@, vm(self.fields@[i as int].1)));
            }
            if self.fields[i].0 == k {
                proof {
                    let c = choose|j: int| 0 <= j < m.len() && (#[trigger] m[j]).0 == key@;
                    assert(m[i as int].0 == key@);
                    if c != i as int {
                        assert(m[c].0 != m[i as int].0);
                    }
                }
                match &self.fields[i].1 {
                    ResponseValue::Text(s) => {
                        return Some(s);
                    },
                    ResponseValue::Object(_) => {
                        return None;
                    },
                }
            }
            i += 1;
        }
        None
    }

    /// Whether any field holds this key.
    pub fn has_key(&self, key: &str) -> (r: bool)
        ensures
            r == has_field(self.model(), key@),
    {
        let ghost m = self.model();
        let k: String = key.to_owned();
        let n = self.fields.len();
        let mut i: usize = 0;
        while i < n
            invariant
                i <= n,
                n == m.len(),
                m == self.model(),
                k@ == key@,
                forall|j: int| 0 <= j < i ==> (#[trigger] m[j]).0 != key@,
            decreases n - i,
        {
            proof {
                assert(m[i as int] == (self.fields@[i as int].0@, vm(self.fields@[i as int].1)));
            }
            if self.fields[i].0 == k {
                proof {
                    assert(m[i as int].0 == key@);
                }
                return true;
            }
            i += 1;
        }
        false
    }

    /// The number of fields.
    pub fn len(&self) -> (r: usize)
        ensures
            r == self.model().len(),
    {
        self.fields.len()
    }

    /// A wire object assembled from fields, as one arriving from transport
    /// would be; `from_response` judges whether it decodes.
    pub fn from_fields(fields: Vec<(String, ResponseValue)>) -> (r: Response)
        ensures
            r.model() == fields@.map_values(|p: (String, ResponseValue)| (p.0@, vm(p.1))),
    {
        Response { fields }
    }
}

impl ErrorValue {
    /// The wire form: `code` and `message` always, each optional field only
    /// when attached, absent fields absent rather than null.
    pub fn to_response(&self) -> (r: Response)
        requires
            self.wf(),
        ensures
            encodes(ev_model(*self), r.model()),
            keys_distinct(r.model()),
    {
        let mut fields: Vec<(String, ResponseValue)> = Vec::new();
        fields.push(("code".to_owned(), ResponseValue::Text(self.code.as_str().to_owned())));
        fields.push(("message".to_owned(), ResponseValue::Text(self.message.clone())));
        if let Some(d) = &self.details {
            fields.push(("details".to_owned(), ResponseValue::Text(d.clone())));
        }
        if let Some(f) = &self.field {
            fields.push(("field".to_owned(), ResponseValue::Text(f.clone())));
        }
        if let Some(c) = &self.cause {
            fields.push(("cause".to_owned(), ResponseValue::Text(c.clone())));
        }
        if let Some(cx) = &self.context {
            fields.push(("context".to_owned(), ResponseValue::Object(cx.to_entries())));
            proof {
                lemma_view_pairs_model(cx.entries_seq());
            }
        }
        let r = Response { fields };
        proof {
            let m = r.model();
            let e = ev_model(*self);
            lemma_known_keys_distinct();
            assert(forall|i: int|
                0 <= i < m.len() ==> #[trigger] m[i] == (r.fields@[i].0@, vm(r.fields@[i].1)));
            assert forall|i: int| 0 <= i < m.len() implies known_key((#[trigger] m[i]).0) by {
                assert(m[i] == (r.fields@[i].0@, vm(r.fields@[i].1)));
            }
            assert(keys_distinct(m));
            assert(m[0] == ("code"@, ValModel::Text(e.code.spec_token())));
            assert(m[1] == ("message"@, ValModel::Text(e.message)));
            lemma_field_at(m, 0);
            lemma_field_at(m, 1);
            if self.details is Some {
                lemma_field_at(m, 2);
            }
            if self.field is Some {
                lemma_field_at(
                    m,
                    2 + (if self.details is Some {
                        1int
                    } else {
                        0int
                    }),
                );
            }
            if self.cause is Some {
                lemma_field_at(
                    m,
                    2 + (if self.details is Some {
                        1int
                    } else {
                        0int
                    }) + (if self.field is Some {
                        1int
                    } else {
                        0int
                    }),
                );
            }
            if self.context is Some {
                lemma_field_at(m, m.len() - 1);
            }
        }
        r
    }
}

/// The category a wire token names, if any.
pub open spec fn spec_code_of(t: Seq<char>) -> Option<ErrorCode> {
    if t == ErrorCode::DbNotFound.spec_token() {
        Some(ErrorCode::DbNotFound)
    } else if t == ErrorCode::DbQueryFailed.spec_token() {
        Some(ErrorCode::DbQueryFailed)
    } else if t == ErrorCode::DbConnectionFailed.spec_token() {
        Some(ErrorCode::DbConnectionFailed)
    } else if t == ErrorCode::DbConstraintViolation.spec_token() {
        Some(ErrorCode::DbConstraintViolation)
    } else if t == ErrorCode::ValidationFailed.spec_token() {
        Some(ErrorCode::ValidationFailed)
    } else if t == ErrorCode::ResourceNotFound.spec_token() {
        Some(ErrorCode::ResourceNotFound)
    } else if t == ErrorCode::SerializationFailed.spec_token() {
        Some(ErrorCode::SerializationFailed)
    } else if t == ErrorCode::InternalError.spec_token() {
        Some(ErrorCode::InternalError)
    } else {
        None
    }
}

/// A token read back from the wire names the category it was written for.
pub proof fn lemma_code_token_round(c: ErrorCode)
    ensures
        spec_code_of(c.spec_token()) == Some(c),
{
    crate::error::lemma_tokens_distinct(c, ErrorCode::DbNotFound);
    crate::error::lemma_tokens_distinct(c, ErrorCode::DbQueryFailed);
    crate::error::lemma_tokens_distinct(c, ErrorCode::DbConnectionFailed);
    crate::error::lemma_tokens_distinct(c, ErrorCode::DbConstraintViolation);
    crate::error::lemma_tokens_distinct(c, ErrorCode::ValidationFailed);
    crate::error::lemma_tokens_distinct(c, ErrorCode::ResourceNotFound);
    crate::error::lemma_tokens_distinct(c, ErrorCode::SerializationFailed);
    crate::error::lemma_tokens_distinct(c, ErrorCode::InternalError);
}

/// The category a wire token names.
fn code_from_token(t: &String) -> (r: Option<ErrorCode>)
    ensures
        r == spec_code_of(t@),
{
    if *t == "DB_NOT_FOUND".to_owned() {
        Some(ErrorCode::DbNotFound)
    } else if *t == "DB_QUERY_FAILED".to_owned() {
        Some(ErrorCode::DbQueryFailed)
    } else if *t == "DB_CONNECTION_FAILED".to_owned() {
        Some(ErrorCode::DbConnectionFailed)
    } else if *t == "DB_CONSTRAINT_VIOLATION".to_owned() {
        Some(ErrorCode::DbConstraintViolation)
    } else if *t == "VALIDATION_FAILED".to_owned() {
        Some(ErrorCode::ValidationFailed)
    } else if *t == "RESOURCE_NOT_FOUND".to_owned() {
        Some(ErrorCode::ResourceNotFound)
    } else if *t == "SERIALIZATION_FAILED".to_owned() {
        Some(ErrorCode::SerializationFailed)
    } else if *t == "INTERNAL_ERROR".to_owned() {
        Some(ErrorCode::InternalError)
    } else {
        None
    }
}

/// The text a wire value holds.
pub open spec fn text_of(v: ValModel) -> Seq<char> {
    match v {
        ValModel::Text(s) => s,
        ValModel::Object(_) => Seq::empty(),
    }
}

/// The table a wire value holds.
pub open spec fn obj_of(v: ValModel) -> Seq<(Seq<char>, Seq<char>)> {
    match v {
        ValModel::Text(_) => Seq::empty(),
        ValModel::Object(ps) => ps,
    }
}

/// A wire object that decodes: distinct known keys only; a code field
/// holding a known token; a non-empty message; text in each optional
/// field; a non-empty table with distinct keys in the context field.
pub open spec fn decodable(m: Seq<(Seq<char>, ValModel)>) -> bool {
    &&& keys_distinct(m)
    &&& forall|i: int| 0 <= i < m.len() ==> known_key((#[trigger] m[i]).0)
    &&& has_field(m, "code"@)
    &&& (field_value(m, "code"@) matches ValModel::Text(t) && spec_code_of(t) is Some)
    &&& has_field(m, "message"@)
    &&& (field_value(m, "message"@) matches ValModel::Text(s) && s.len() > 0)
    &&& (has_field(m, "details"@) ==> field_value(m, "details"@) is Text)
    &&& (has_field(m, "field"@) ==> field_value(m, "field"@) is Text)
    &&& (has_field(m, "cause"@) ==> field_value(m, "cause"@) is Text)
    &&& (has_field(m, "context"@) ==> (field_value(m, "context"@) matches ValModel::Object(ps)
        && ps.len() > 0 && view_pairs_distinct(ps)))
}

/// What a decodable wire object denotes.
pub open spec fn decoded(m: Seq<(Seq<char>, ValModel)>) -> ErrorModel {
    ErrorModel {
        code: spec_code_of(text_of(field_value(m, "code"@))).unwrap(),
        message: text_of(field_value(m, "message"@)),
        details: if has_field(m, "details"@) {
            Some(text_of(field_value(m, "details"@)))
        } else {
            None
        },
        field: if has_field(m, "field"@) {
            Some(text_of(field_value(m, "field"@)))
        } else {
            None
        },
        cause: if has_field(m, "cause"@) {
            Some(text_of(field_value(m, "cause"@)))
        } else {
            None
        },
        context: if has_field(m, "context"@) {
            Some(view_pairs_model(obj_of(field_value(m, "context"@))))
        } else {
            None
        },
    }
}

/// Round trip: every encoding of a well-formed error model decodes, and
/// decodes to a model with identical code, identical message, exactly the
/// optional fields that were attached with identical contents, and no
/// field that was never attached.
pub proof fn lemma_encode_decode_round_trip(e: ErrorModel, m: Seq<(Seq<char>, ValModel)>)
    requires
        wf_model(e),
        encodes(e, m),
    ensures
        decodable(m),
        decoded(m) == e,
{
    lemma_code_token_round(e.code);
}

impl Response {
    /// Whether the field keys are pairwise distinct.
    fn keys_are_distinct(&self) -> (b: bool)
        ensures
            b == keys_distinct(self.model()),
    {
        let ghost m = self.model();
        proof {
            assert(forall|i: int|
                0 <= i < m.len() ==> #[trigger] m[i] == (
                    self.fields@[i].0@,
                    vm(self.fields@[i].1),
                ));
        }
        let n = self.fields.len();
        let mut i: usize = 0;
        while i < n
            invariant
                i <= n,
                n == m.len(),
                m == self.model(),
                forall|x: int, y: int|
                    0 <= x < y < i ==> (#[trigger] m[x]).0 != (#[trigger] m[y]).0,
                forall|x: int|
                    0 <= x < m.len() ==> #[trigger] m[x] == (
                        self.fields@[x].0@,
                        vm(self.fields@[x].1),
                    ),
            decreases n - i,
        {
            let mut j: usize = 0;
            while j < i
                invariant
                    j <= i < n,
                    n == m.len(),
                    m == self.model(),
                    forall|x: int, y: int|
                        0 <= x < y < i ==> (#[trigger] m[x]).0 != (#[trigger] m[y]).0,
                    forall|x: int| 0 <= x < j ==> (#[trigger] m[x]).0 != m[i as int].0,
                    forall|x: int|
                        0 <= x < m.len() ==> #[trigger] m[x] == (
                            self.fields@[x].0@,
                            vm(self.fields@[x].1),
                        ),
                decreases i - j,
            {
                if self.fields[j].0 == self.fields[i].0 {
                    proof {
                        assert(!keys_distinct(m)) by {
                            assert(0 <= j < i < m.len() && m[j as int].0 == m[i as int].0);
                        }
                    }
                    return false;
                }
                j += 1;
            }
            i += 1;
        }
        true
    }

    /// Whether every field key is one the wire form knows.
    fn keys_all_known(&self) -> (b: bool)
        ensures
            b == (forall|i: int| 0 <= i < self.model().len() ==> known_key(
                (#[trigger] self.model()[i]).0,
            )),
    {
        let ghost m = self.model();
        proof {
            assert(forall|i: int|
                0 <= i < m.len() ==> #[trigger] m[i] == (
                    self.fields@[i].0@,
                    vm(self.fields@[i].1),
                ));
        }
        let n = self.fields.len();
        let mut i: usize = 0;
        while i < n
            invariant
                i <= n,
                n == m.len(),
                m == self.model(),
                forall|x: int| 0 <= x < i ==> known_key((#[trigger] m[x]).0),
                forall|x: int|
                    0 <= x < m.len() ==> #[trigger] m[x] == (
                        self.fields@[x].0@,
                        vm(self.fields@[x].1),
                    ),
            decreases n - i,
        {
            let k = &self.fields[i].0;
            let known = *k == "code".to_owned() || *k == "message".to_owned() || *k
                == "details".to_owned() || *k == "field".to_owned() || *k == "cause".to_owned()
                || *k == "context".to_owned();
            if !known {
                proof {
                    assert(!known_key(m[i as int].0));
                }
                return false;
            }
            i += 1;
        }
        true
    }

    /// The table field under this key, on an object with distinct keys.
    fn get_obj(&self, key: &str) -> (r: Option<&Vec<(String, String)>>)
        requires
            keys_distinct(self.model()),
        ensures
            match r {
                Some(v) => has_field(self.model(), key@) && field_value(self.model(), key@)
                    == ValModel::Object(pairs_view(v@)),
                None => !has_field(self.model(), key@) || field_value(self.model(), key@) matches
                    ValModel::Text(_),
            },
    {
        let ghost m = self.model();
        let k: String = key.to_owned();
        let n = self.fields.len();
        let mut i: usize = 0;
        while i < n
            invariant
                i <= n,
                n == m.len(),
                m == self.model(),
                keys_distinct(m),
                k@ == key@,
                forall|j: int| 0 <= j < i ==> (#[trigger] m[j]).0 != key@,
            decreases n - i,
        {
            proof {
                assert(m[i as int] == (self.fields@[i as int].0@, vm(self.fields@[i as int].1)));
            }
            if self.fields[i].0 == k {
                proof {
                    lemma_field_at(m, i as int);
                }
                match &self.fields[i].1 {
                    ResponseValue::Object(v) => {
                        return Some(v);
                    },
                    ResponseValue::Text(_) => {
                        return None;
                    },
                }
            }
            i += 1;
        }
        None
    }
}

/// A copy of a table's entries, keeping their contents.
fn clone_pairs(v: &Vec<(String, String)>) -> (r: Vec<(String, String)>)
    ensures
        r@ == v@,
{
    let mut r: Vec<(String, String)> = Vec::new();
    let n = v.len();
    let mut i: usize = 0;
    while i < n
        invariant
            i <= n,
            n == v@.len(),
            r@ =~= v@.subrange(0, i as int),
        decreases n - i,
    {
        r.push((v[i].0.clone(), v[i].1.clone()));
        i += 1;
    }
    proof {
        assert(r@ =~= v@);
    }
    r
}

/// Whether a table's entry keys are pairwise distinct.
fn pairs_are_distinct(v: &Vec<(String, String)>) -> (b: bool)
    ensures
        b == view_pairs_distinct(pairs_view(v@)),
{
    let ghost ps = pairs_view(v@);
    proof {
        assert(forall|i: int| 0 <= i < ps.len() ==> #[trigger] ps[i] == (v@[i].0@, v@[i].1@));
    }
    let n = v.len();
    let mut i: usize = 0;
    while i < n
        invariant
            i <= n,
            n == ps.len(),
            ps == pairs_view(v@),
            forall|x: int, y: int| 0 <= x < y < i ==> (#[trigger] ps[x]).0 != (#[trigger] ps[y]).0,
            forall|x: int| 0 <= x < ps.len() ==> #[trigger] ps[x] == (v@[x].0@, v@[x].1@),
        decreases n - i,
    {
        let mut j: usize = 0;
        while j < i
            invariant
                j <= i < n,
                n == ps.len(),
                ps == pairs_view(v@),
                forall|x: int, y: int|
                    0 <= x < y < i ==> (#[trigger] ps[x]).0 != (#[trigger] ps[y]).0,
                forall|x: int| 0 <= x < j ==> (#[trigger] ps[x]).0 != ps[i as int].0,
                forall|x: int| 0 <= x < ps.len() ==> #[trigger] ps[x] == (v@[x].0@, v@[x].1@),
            decreases i - j,
        {
            if v[j].0 == v[i].0 {
                proof {
                    assert(!view_pairs_distinct(ps)) by {
                        assert(0 <= j < i < ps.len() && ps[j as int].0 == ps[i as int].0);
                    }
                }
                return false;
            }
            j += 1;
        }
        i += 1;
    }
    true
}

impl ErrorValue {
    /// Decode a wire object. Yields a value exactly when the object
    /// decodes, and then one that denotes what the object denotes; absent
    /// optional fields decode to absent, never to a default.
    pub fn from_response(r: &Response) -> (out: Option<ErrorValue>)
        ensures
            decodable(r.model()) ==> (out matches Some(v) && v.wf() && ev_model(v) == decoded(
                r.model(),
            )),
            !decodable(r.model()) ==> out is None,
    {
        let ghost m = r.model();
        if !r.keys_are_distinct() {
            return None;
        }
        if !r.keys_all_known() {
            return None;
        }
        let code = match r.get_str("code") {
            Some(t) => match code_from_token(t) {
                Some(c) => c,
                None => {
                    return None;
                },
            },
            None => {
                return None;
            },
        };
        let message = match r.get_str("message") {
            Some(s) => {
                if s.as_str().is_empty() {
                    return None;
                }
                s.clone()
            },
            None => {
                return None;
            },
        };
        let details = if r.has_key("details") {
            match r.get_str("details") {
                Some(d) => Some(d.clone()),
                None => {
                    return None;
                },
            }
        } else {
            None
        };
        let field = if r.has_key("field") {
            match r.get_str("field") {
                Some(f) => Some(f.clone()),
                None => {
                    return None;
                },
            }
        } else {
            None
        };
        let cause = if r.has_key("cause") {
            match r.get_str("cause") {
                Some(c) => Some(c.clone()),
                None => {
                    return None;
                },
            }
        } else {
            None
        };
        let context = if r.has_key("context") {
            match r.get_obj("context") {
                Some(entries) => {
                    if entries.is_empty() {
                        return None;
                    }
                    if !pairs_are_distinct(entries) {
                        return None;
                    }
                    let copied = clone_pairs(entries);
                    proof {
                        let ps = pairs_view(copied@);
                        assert(forall|x: int|
                            0 <= x < ps.len() ==> #[trigger] ps[x] == (
                                copied@[x].0@,
                                copied@[x].1@,
                            ));
                        assert forall|x: int, y: int|
                            0 <= x < y < copied@.len() implies (#[trigger] copied@[x]).0@ != (
                        #[trigger] copied@[y]).0@ by {
                            assert(ps[x].0 != ps[y].0);
                        }
                        lemma_view_pairs_model(copied@);
                    }
                    Some(Context::from_entries(copied))
                },
                None => {
                    return None;
                },
            }
        } else {
            None
        };
        Some(ErrorValue { code, message, details, field, cause, context })
    }
}

/// The lower-case hexadecimal digit of a value below sixteen.
pub open spec fn hex_char(d: int) -> char {
    if d < 10 {
        ((d + 48) as u8) as char
    } else {
        ((d + 87) as u8) as char
    }
}

/// How one character is written inside a JSON string: the quote, the
/// backslash and the common control characters get their two-character
/// escapes, any other control character a `\u00..` escape, and everything
/// else stands as itself.
pub open spec fn escape_char(c: char) -> Seq<char> {
    if c == '"' {
        seq!['\\', '"']
    } else if c == '\\' {
        seq!['\\', '\\']
    } else if c == '\n' {
        seq!['\\', 'n']
    } else if c == '\r' {
        seq!['\\', 'r']
    } else if c == '\t' {
        seq!['\\', 't']
    } else if (c as int) < 32 {
        seq!['\\', 'u', '0', '0', hex_char(c as int / 16), hex_char(c as int % 16)]
    } else {
        seq![c]
    }
}

/// A text, escaped character by character.
pub open spec fn escape(s: Seq<char>) -> Seq<char>
    decreases s.len(),
{
    if s.len() == 0 {
        Seq::empty()
    } else {
        escape(s.drop_last()) + escape_char(s.last())
    }
}

/// A JSON string literal: the escaped text between quotes.
pub open spec fn render_text(s: Seq<char>) -> Seq<char> {
    seq!['"'] + escape(s) + seq!['"']
}

/// One table entry, as `"key":"value"`.
pub open spec fn render_entry(p: (Seq<char>, Seq<char>)) -> Seq<char> {
    render_text(p.0) + seq![':'] + render_text(p.1)
}

/// Table entries, comma-separated.
pub open spec fn render_entries(ps: Seq<(Seq<char>, Seq<char>)>) -> Seq<char>
    decreases ps.len(),
{
    if ps.len() == 0 {
        Seq::empty()
    } else if ps.len() == 1 {
        render_entry(ps[0])
    } else {
        render_entries(ps.drop_last()) + seq![','] + render_entry(ps.last())
    }
}

/// One wire value: a string literal, or the context table in braces.
pub open spec fn render_value(v: ValModel) -> Seq<char> {
    match v {
        ValModel::Text(s) => render_text(s),
        ValModel::Object(ps) => seq!['{'] + render_entries(ps) + seq!['}'],
    }
}

/// One field, as `"key":value`.
pub open spec fn render_field(f: (Seq<char>, ValModel)) -> Seq<char> {
    render_text(f.0) + seq![':'] + render_value(f.1)
}

/// Fields, comma-separated.
pub open spec fn render_fields(m: Seq<(Seq<char>, ValModel)>) -> Seq<char>
    decreases m.len(),
{
    if m.len() == 0 {
        Seq::empty()
    } else if m.len() == 1 {
        render_field(m[0])
    } else {
        render_fields(m.drop_last()) + seq![','] + render_field(m.last())
    }
}

/// The whole wire object in braces.
pub open spec fn render_spec(m: Seq<(Seq<char>, ValModel)>) -> Seq<char> {
    seq!['{'] + render_fields(m) + seq!['}']
}

/// Append a text, escaped.
fn append_escaped(out: &mut String, s: &str)
    ensures
        final(out)@ == old(out)@ + escape(s@),
{
    let n = s.unicode_len();
    let mut k: usize = 0;
    proof {
        assert(s@.subrange(0, 0) =~= Seq::<char>::empty());
        assert(out@ =~= out@ + escape(s@.subrange(0, 0)));
    }
    while k < n
        invariant
            k <= n,
            n == s@.len(),
            out@ == old(out)@ + escape(s@.subrange(0, k as int)),
        decreases n - k,
    {
        let c = s.get_char(k);
        if c == '"' {
            push_char(out, '\\');
            push_char(out, '"');
        } else if c == '\\' {
            push_char(out, '\\');
            push_char(out, '\\');
        } else if c == '\n' {
            push_char(out, '\\');
            push_char(out, 'n');
        } else if c == '\r' {
            push_char(out, '\\');
            push_char(out, 'r');
        } else if c == '\t' {
            push_char(out, '\\');
            push_char(out, 't');
        } else if (c as u32) < 32 {
            push_char(out, '\\');
            push_char(out, 'u');
            push_char(out, '0');
            push_char(out, '0');
            let d = c as u32;
            let hi = (d / 16) as u8;
            let lo = (d % 16) as u8;
            push_char(out, (hi + 48) as char);
            push_char(out, (lo + if lo < 10 { 48 } else { 87 }) as char);
        } else {
            push_char(out, c);
        }
        k += 1;
        proof {
            let t = s@.subrange(0, k as int);
            assert(t.drop_last() =~= s@.subrange(0, k as int - 1));
            assert(t.last() == s@[k as int - 1]);
            assert(out@ =~= old(out)@ + escape(t));
        }
    }
    proof {
        assert(s@.subrange(0, n as int) =~= s@);
    }
}

/// Append a JSON string literal.
fn append_text(out: &mut String, s: &str)
    ensures
        final(out)@ == old(out)@ + render_text(s@),
{
    push_char(out, '"');
    append_escaped(out, s);
    push_char(out, '"');
    proof {
        assert(out@ =~= old(out)@ + render_text(s@));
    }
}

/// A text as a JSON string literal, escaped and quoted.
pub fn json_string_of(s: &str) -> (r: String)
    ensures
        r@ == render_text(s@),
{
    let mut out = String::new();
    append_text(&mut out, s);
    proof {
        assert(out@ =~= render_text(s@));
    }
    out
}

impl Response {
    /// The wire object as JSON text: every field present, in order, and no
    /// other.
    pub fn render(&self) -> (r: String)
        ensures
            r@ == render_spec(self.model()),
    {
        let ghost m = self.model();
        proof {
            assert(forall|i: int|
                0 <= i < m.len() ==> #[trigger] m[i] == (
                    self.fields@[i].0@,
                    vm(self.fields@[i].1),
                ));
        }
        let mut out = String::new();
        push_char(&mut out, '{');
        proof {
            assert(out@ =~= seq!['{'] + render_fields(m.subrange(0, 0)));
        }
        let n = self.fields.len();
        let mut i: usize = 0;
        while i < n
            invariant
                i <= n,
                n == m.len(),
                m == self.model(),
                out@ == seq!['{'] + render_fields(m.subrange(0, i as int)),
                forall|x: int|
                    0 <= x < m.len() ==> #[trigger] m[x] == (
                        self.fields@[x].0@,
                        vm(self.fields@[x].1),
                    ),
            decreases n - i,
        {
            if i > 0 {
                push_char(&mut out, ',');
            }
            append_text(&mut out, self.fields[i].0.as_str());
            push_char(&mut out, ':');
            match &self.fields[i].1 {
                ResponseValue::Text(s) => {
                    append_text(&mut out, s.as_str());
                },
                ResponseValue::Object(entries) => {
                    let ghost ps = pairs_view(entries@);
                    proof {
                        assert(forall|x: int|
                            0 <= x < ps.len() ==> #[trigger] ps[x] == (
                                entries@[x].0@,
                                entries@[x].1@,
                            ));
                    }
                    let ghost before = out@;
                    push_char(&mut out, '{');
                    proof {
                        assert(out@ =~= before + seq!['{'] + render_entries(ps.subrange(0, 0)));
                    }
                    let en = entries.len();
                    let mut j: usize = 0;
                    while j < en
                        invariant
                            j <= en,
                            en == ps.len(),
                            ps == pairs_view(entries@),
                            out@ == before + seq!['{'] + render_entries(ps.subrange(0, j as int)),
                            forall|x: int|
                                0 <= x < ps.len() ==> #[trigger] ps[x] == (
                                    entries@[x].0@,
                                    entries@[x].1@,
                                ),
                        decreases en - j,
                    {
                        if j > 0 {
                            push_char(&mut out, ',');
                        }
                        append_text(&mut out, entries[j].0.as_str());
                        push_char(&mut out, ':');
                        append_text(&mut out, entries[j].1.as_str());
                        j += 1;
                        proof {
                            let t = ps.subrange(0, j as int);
                            assert(t.drop_last() =~= ps.subrange(0, j as int - 1));
                            assert(t.last() == ps[j as int - 1]);
                            assert(out@ =~= before + seq!['{'] + render_entries(t));
                        }
                    }
                    push_char(&mut out, '}');
                    proof {
                        assert(ps.subrange(0, ps.len() as int) =~= ps);
                        assert(out@ =~= before + render_value(m[i as int].1));
                    }
                },
            }
            i += 1;
            proof {
                let t = m.subrange(0, i as int);
                assert(t.drop_last() =~= m.subrange(0, i as int - 1));
                assert(t.last() == m[i as int - 1]);
                assert(out@ =~= seq!['{'] + render_fields(t));
            }
        }
        push_char(&mut out, '}');
        proof {
            assert(m.subrange(0, m.len() as int) =~= m);
            assert(out@ =~= render_spec(m));
        }
        out
    }
}

impl AppError {
    /// The wire form of the wrapped payload.
    pub fn to_json(&self) -> (r: Response)
        requires
            self.value().wf(),
        ensures
            encodes(ev_model(self.value()), r.model()),
            keys_distinct(r.model()),
    {
        self.to_value().to_response()
    }
}

} // verus!
