//! The records of the service and their mathematical views.

use vstd::prelude::*;
use crate::text::{optional_text, texts};

verus! {

/// One inbox: its identifier, when it was made, and the address that its
/// owner hands out. None of the three changes after creation.
#[derive(Debug)]
pub struct TokenInfo {
    pub token: String,
    pub created_at: String,
    pub webhook_url: String,
}

/// What a `TokenInfo` holds.
pub struct TokenInfoView {
    pub token: Seq<char>,
    pub created_at: Seq<char>,
    pub webhook_url: Seq<char>,
}

impl View for TokenInfo {
    type V = TokenInfoView;

    open spec fn view(&self) -> TokenInfoView {
        TokenInfoView {
            token: self.token@,
            created_at: self.created_at@,
            webhook_url: self.webhook_url@,
        }
    }
}

impl Clone for TokenInfo {
    fn clone(&self) -> (r: Self)
        ensures
            r@ == self@,
    {
        TokenInfo {
            token: self.token.clone(),
            created_at: self.created_at.clone(),
            webhook_url: self.webhook_url.clone(),
        }
    }
}

/// A header name with the values received under it, in arrival order.
#[derive(Clone, Debug)]
pub(crate) struct HeaderField {
    pub(crate) name: String,
    pub(crate) values: Vec<String>,
}

/// Headers by name. A name occurs once; the values under it keep the order
/// in which they were added, repeated values too.
#[derive(Debug)]
pub struct Headers {
    pub(crate) fields: Vec<HeaderField>,
}

/// Some index in `fields` that holds `name`, where there is one.
spec fn field_index(fields: Seq<HeaderField>, name: Seq<char>) -> int {
    choose|i: int| 0 <= i < fields.len() && fields[i].name@ == name
}

/// Whether some field of `fields` holds `name`.
spec fn has_field(fields: Seq<HeaderField>, name: Seq<char>) -> bool {
    exists|i: int| 0 <= i < fields.len() && fields[i].name@ == name
}

/// No two fields of `fields` share a name.
spec fn distinct_names(fields: Seq<HeaderField>) -> bool {
    forall|i: int, j: int|
        0 <= i < j < fields.len() ==> fields[i].name@ != fields[j].name@
}

/// The mapping that `fields` stands for.
spec fn fields_map(fields: Seq<HeaderField>) -> Map<Seq<char>, Seq<Seq<char>>> {
    Map::new(
        |name: Seq<char>| has_field(fields, name),
        |name: Seq<char>| texts(fields[field_index(fields, name)].values@),
    )
}

/// With distinct names, each field is found under its own name.
proof fn lemma_fields_map_at(fields: Seq<HeaderField>, i: int)
    requires
        distinct_names(fields),
        0 <= i < fields.len(),
    ensures
        fields_map(fields).contains_key(fields[i].name@),
        fields_map(fields)[fields[i].name@] == texts(fields[i].values@),
{
    let name = fields[i].name@;
    assert(has_field(fields, name));
    let k = field_index(fields, name);
    assert(0 <= k < fields.len() && fields[k].name@ == name);
    if k < i {
        assert(fields[k].name@ != fields[i].name@);
    } else if i < k {
        assert(fields[i].name@ != fields[k].name@);
    }
}

impl View for Headers {
    type V = Map<Seq<char>, Seq<Seq<char>>>;

    closed spec fn view(&self) -> Map<Seq<char>, Seq<Seq<char>>> {
        fields_map(self.fields@)
    }
}

/// A copy of a list of strings.
fn copy_strings(v: &Vec<String>) -> (r: Vec<String>)
    ensures
        texts(r@) == texts(v@),
{
    let mut r: Vec<String> = Vec::new();
    let mut i: usize = 0;
    while i < v.len()
        invariant
            i <= v.len(),
            texts(r@) == texts(v@).take(i as int),
        decreases v.len() - i,
    {
        let ghost earlier = texts(r@);
        r.push(v[i].clone());
        proof {
            assert(texts(r@) =~= earlier.push(v[i as int]@));
            assert(texts(v@).take(i + 1) =~= texts(v@).take(i as int).push(v[i as int]@));
        }
        i += 1;
    }
    proof {
        assert(texts(v@).take(i as int) =~= texts(v@));
    }
    r
}

impl Clone for Headers {
    fn clone(&self) -> (r: Self)
        ensures
            r@ == self@,
    {
        proof {
            use_type_invariant(self);
        }
        let mut r = Headers::new();
        let mut i: usize = 0;
        proof {
            assert(fields_map(self.fields@.take(0)) =~= Map::<Seq<char>, Seq<Seq<char>>>::empty());
        }
        while i < self.fields.len()
            invariant
                i <= self.fields.len(),
                distinct_names(self.fields@),
                r@ == fields_map(self.fields@.take(i as int)),
            decreases self.fields.len() - i,
        {
            let name = self.fields[i].name.clone();
            let values = copy_strings(&self.fields[i].values);
            proof {
                let before = self.fields@.take(i as int);
                let after = self.fields@.take(i + 1);
                assert(after.drop_last() =~= before);
                assert forall|a: int, b: int| 0 <= a < b < before.len() implies before[a].name@
                    != before[b].name@ by {
                    assert(before[a] == self.fields[a] && before[b] == self.fields[b]);
                }
                if has_field(before, after.last().name@) {
                    let k = choose|k: int|
                        0 <= k < before.len() && before[k].name@ == after.last().name@;
                    assert(before[k] == self.fields[k]);
                    assert(self.fields[k].name@ != self.fields[i as int].name@);
                }
                lemma_fields_map_push(before, after);
            }
            r.insert(name, values);
            i += 1;
        }
        proof {
            assert(self.fields@.take(i as int) =~= self.fields@);
        }
        r
    }
}

impl Headers {
    #[verifier::type_invariant]
    spec fn well_formed(self) -> bool {
        distinct_names(self.fields@)
    }

    /// No headers at all.
    pub fn new() -> (r: Headers)
        ensures
            r@ == Map::<Seq<char>, Seq<Seq<char>>>::empty(),
    {
        let r = Headers { fields: Vec::new() };
        assert(r@ =~= Map::<Seq<char>, Seq<Seq<char>>>::empty());
        r
    }

    /// Where `name` stands among the fields, if it does.
    fn position(&self, name: &str) -> (r: Option<usize>)
        ensures
            match r {
                Some(i) => i < self.fields.len() && self.fields[i as int].name@ == name@,
                None => !has_field(self.fields@, name@),
            },
    {
        let key = String::from_str(name);
        let mut i: usize = 0;
        while i < self.fields.len()
            invariant
                i <= self.fields.len(),
                key@ == name@,
                forall|j: int| 0 <= j < i ==> self.fields[j].name@ != name@,
            decreases self.fields.len() - i,
        {
            if self.fields[i].name == key {
                return Some(i);
            }
            i += 1;
        }
        None
    }

    /// The values under `name`, if the name occurs.
    pub fn get(&self, name: &str) -> (r: Option<&Vec<String>>)
        ensures
            match r {
                Some(values) => self@.contains_key(name@) && self@[name@] == texts(values@),
                None => !self@.contains_key(name@),
            },
    {
        proof {
            use_type_invariant(self);
        }
        match self.position(name) {
            Some(i) => {
                proof {
                    lemma_fields_map_at(self.fields@, i as int);
                }
                Some(&self.fields[i].values)
            },
            None => None,
        }
    }

    /// Puts `values` under `name`, in place of what was there.
    pub fn insert(&mut self, name: String, values: Vec<String>)
        ensures
            final(self)@ == old(self)@.insert(name@, texts(values@)),
    {
        proof {
            use_type_invariant(&*self);
        }
        let found = self.position(name.as_str());
        let ghost before = self.fields@;
        let mut fields: Vec<HeaderField> = Vec::new();
        core::mem::swap(&mut self.fields, &mut fields);
        match found {
            Some(i) => {
                fields[i].values = values;
                proof {
                    let after = fields@;
                    assert(after[i as int].name@ == before[i as int].name@);
                    assert(forall|j: int| 0 <= j < after.len() && j != i ==> after[j] == before[j]);
                    lemma_fields_map_update(before, after, i as int);
                }
            },
            None => {
                fields.push(HeaderField { name, values });
                proof {
                    let after = fields@;
                    assert(after.drop_last() =~= before);
                    lemma_fields_map_push(before, after);
                }
            },
        }
        self.fields = fields;
    }

    /// The names, each once.
    pub fn names(&self) -> (names: Vec<String>)
        ensures
            names.len() == self@.dom().len(),
            forall|name: Seq<char>| self@.contains_key(name) <==> texts(names@).contains(name),
            texts(names@).no_duplicates(),
    {
        proof {
            use_type_invariant(self);
            lemma_fields_map_len(self.fields@);
        }
        let mut names: Vec<String> = Vec::new();
        let mut i: usize = 0;
        while i < self.fields.len()
            invariant
                i <= self.fields.len(),
                names.len() == i,
                forall|j: int| 0 <= j < i ==> (#[trigger] names[j])@ == self.fields[j].name@,
            decreases self.fields.len() - i,
        {
            names.push(self.fields[i].name.clone());
            i += 1;
        }
        proof {
            let listed = texts(names@);
            assert forall|name: Seq<char>| self@.contains_key(name) <==> listed.contains(
                name,
            ) by {
                if has_field(self.fields@, name) {
                    let k = field_index(self.fields@, name);
                    assert(listed[k] == name);
                }
                if listed.contains(name) {
                    let k = choose|k: int| 0 <= k < listed.len() && listed[k] == name;
                    assert(self.fields[k].name@ == name);
                }
            }
            assert forall|a: int, b: int| 0 <= a < listed.len() && 0 <= b < listed.len() && a
                != b implies listed[a] != listed[b] by {
                if a < b {
                    assert(self.fields[a].name@ != self.fields[b].name@);
                } else {
                    assert(self.fields[b].name@ != self.fields[a].name@);
                }
            }
        }
        names
    }

    /// How many names there are.
    pub fn len(&self) -> (n: usize)
        ensures
            n == self@.dom().len(),
            self@.dom().finite(),
    {
        proof {
            use_type_invariant(self);
            lemma_fields_map_len(self.fields@);
        }
        self.fields.len()
    }

    /// Adds `value` after the values already under `name`.
    pub fn append(&mut self, name: String, value: String)
        ensures
            final(self)@ == old(self)@.insert(
                name@,
                (if old(self)@.contains_key(name@) {
                    old(self)@[name@]
                } else {
                    Seq::<Seq<char>>::empty()
                }).push(value@),
            ),
    {
        proof {
            use_type_invariant(&*self);
        }
        let found = self.position(name.as_str());
        let ghost before = self.fields@;
        let mut fields: Vec<HeaderField> = Vec::new();
        core::mem::swap(&mut self.fields, &mut fields);
        match found {
            Some(i) => {
                proof {
                    lemma_fields_map_at(before, i as int);
                }
                let ghost earlier = fields[i as int].values@;
                fields[i].values.push(value);
                proof {
                    let after = fields@;
                    assert(after[i as int].name@ == before[i as int].name@);
                    assert(after[i as int].values@ == earlier.push(value));
                    assert(forall|j: int| 0 <= j < after.len() && j != i ==> after[j] == before[j]);
                    lemma_fields_map_update(before, after, i as int);
                    assert(texts(earlier.push(value)) =~= texts(earlier).push(value@));
                }
            },
            None => {
                let mut values: Vec<String> = Vec::new();
                values.push(value);
                fields.push(HeaderField { name, values });
                proof {
                    let after = fields@;
                    assert(after.drop_last() =~= before);
                    lemma_fields_map_push(before, after);
                    assert(texts(after.last().values@) =~= Seq::<Seq<char>>::empty().push(value@));
                }
            },
        }
        self.fields = fields;
    }
}

/// What was received in one request.
#[derive(Clone, Debug)]
pub struct MessageObject {
    /// The HTTP verb, as received.
    pub method: String,
    /// The request target, path and query, as received.
    pub value: String,
    pub headers: Headers,
    /// The entries of the query string as `key=value`, in order.
    pub query_parameters: Vec<String>,
    /// The body as text; absent where the body was empty.
    pub body: Option<String>,
    /// The body as JSON, where it is JSON.
    pub body_object: Option<serde_json::Value>,
}

/// What a `MessageObject` holds.
pub struct MessageObjectView {
    pub method: Seq<char>,
    pub value: Seq<char>,
    pub headers: Map<Seq<char>, Seq<Seq<char>>>,
    pub query_parameters: Seq<Seq<char>>,
    pub body: Option<Seq<char>>,
    pub body_object: Option<serde_json::Value>,
}

impl View for MessageObject {
    type V = MessageObjectView;

    open spec fn view(&self) -> MessageObjectView {
        MessageObjectView {
            method: self.method@,
            value: self.value@,
            headers: self.headers@,
            query_parameters: texts(self.query_parameters@),
            body: optional_text(self.body),
            body_object: self.body_object,
        }
    }
}

/// One captured request. It belongs to the token `token_id` and is never
/// changed once written.
#[derive(Clone, Debug)]
pub struct WebhookRequest {
    pub id: String,
    /// When the request was captured.
    pub date: String,
    pub token_id: String,
    pub message_object: MessageObject,
    /// A free annotation; capture never sets it.
    pub message: Option<String>,
}

/// What a `WebhookRequest` holds.
pub struct WebhookRequestView {
    pub id: Seq<char>,
    pub date: Seq<char>,
    pub token_id: Seq<char>,
    pub message_object: MessageObjectView,
    pub message: Option<Seq<char>>,
}

impl View for WebhookRequest {
    type V = WebhookRequestView;

    open spec fn view(&self) -> WebhookRequestView {
        WebhookRequestView {
            id: self.id@,
            date: self.date@,
            token_id: self.token_id@,
            message_object: self.message_object@,
            message: optional_text(self.message),
        }
    }
}

/// With distinct names, the mapping has as many names as there are fields.
proof fn lemma_fields_map_len(fields: Seq<HeaderField>)
    requires
        distinct_names(fields),
    ensures
        fields_map(fields).dom().finite(),
        fields_map(fields).dom().len() == fields.len(),
    decreases fields.len(),
{
    if fields.len() == 0 {
        assert(fields_map(fields).dom() =~= Set::<Seq<char>>::empty());
    } else {
        let front = fields.drop_last();
        assert forall|i: int, j: int| 0 <= i < j < front.len() implies front[i].name@
            != front[j].name@ by {
            assert(front[i] == fields[i] && front[j] == fields[j]);
        }
        lemma_fields_map_len(front);
        if has_field(front, fields.last().name@) {
            let k = choose|k: int| 0 <= k < front.len() && front[k].name@ == fields.last().name@;
            assert(front[k] == fields[k]);
            assert(fields[k].name@ != fields[fields.len() - 1].name@);
        }
        lemma_fields_map_push(front, fields);
        assert(fields_map(fields).dom() =~= fields_map(front).dom().insert(fields.last().name@));
    }
}

/// Changing the values of one field changes the mapping at its name only.
proof fn lemma_fields_map_update(before: Seq<HeaderField>, after: Seq<HeaderField>, i: int)
    requires
        distinct_names(before),
        0 <= i < before.len(),
        after.len() == before.len(),
        after[i].name@ == before[i].name@,
        forall|j: int| 0 <= j < before.len() && j != i ==> after[j] == before[j],
    ensures
        distinct_names(after),
        fields_map(after) == fields_map(before).insert(before[i].name@, texts(after[i].values@)),
{
    assert forall|a: int, b: int| 0 <= a < b < after.len() implies after[a].name@
        != after[b].name@ by {
        assert(before[a].name@ != before[b].name@);
    }
    let goal = fields_map(before).insert(before[i].name@, texts(after[i].values@));
    assert forall|name: Seq<char>| fields_map(after).contains_key(name) <==> goal.contains_key(
        name,
    ) by {
        if has_field(after, name) {
            let k = field_index(after, name);
            assert(before[k].name@ == name);
        }
        if has_field(before, name) {
            let k = field_index(before, name);
            assert(after[k].name@ == name);
        }
        if name == before[i].name@ {
            assert(after[i].name@ == name);
        }
    }
    assert forall|name: Seq<char>| fields_map(after).contains_key(name) implies fields_map(
        after,
    )[name] == goal[name] by {
        let k = field_index(after, name);
        lemma_fields_map_at(after, k);
        if k != i {
            lemma_fields_map_at(before, k);
        }
    }
    assert(fields_map(after) =~= goal);
}

/// A field with a new name adds its name to the mapping.
proof fn lemma_fields_map_push(before: Seq<HeaderField>, after: Seq<HeaderField>)
    requires
        distinct_names(before),
        after.len() == before.len() + 1,
        after.drop_last() == before,
        !has_field(before, after.last().name@),
    ensures
        distinct_names(after),
        fields_map(after) == fields_map(before).insert(
            after.last().name@,
            texts(after.last().values@),
        ),
{
    let n = before.len() as int;
    assert forall|a: int, b: int| 0 <= a < b < after.len() implies after[a].name@
        != after[b].name@ by {
        assert(after[a] == before[a]);
        if b < n {
            assert(after[b] == before[b]);
        } else {
            if after[a].name@ == after[b].name@ {
                assert(has_field(before, after.last().name@));
            }
        }
    }
    let goal = fields_map(before).insert(after.last().name@, texts(after.last().values@));
    assert forall|name: Seq<char>| fields_map(after).contains_key(name) <==> goal.contains_key(
        name,
    ) by {
        if has_field(after, name) {
            let k = field_index(after, name);
            if k < n {
                assert(before[k] == after[k]);
                assert(has_field(before, name));
            }
        }
        if has_field(before, name) {
            let k = field_index(before, name);
            assert(after[k] == before[k]);
        }
        if name == after.last().name@ {
            assert(after[n].name@ == name);
        }
    }
    assert forall|name: Seq<char>| fields_map(after).contains_key(name) implies fields_map(
        after,
    )[name] == goal[name] by {
        let k = field_index(after, name);
        lemma_fields_map_at(after, k);
        if k < n {
            assert(after[k] == before[k]);
            lemma_fields_map_at(before, k);
        }
    }
    assert(fields_map(after) =~= goal);
}

} // verus!
