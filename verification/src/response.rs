//! The API collaborators the pipeline reports through: a response envelope,
//! per-field validation errors, and the client-facing error record that
//! carries a public message and optional field errors.

use vstd::prelude::*;

verus! {

/// The envelope every successful API response is wrapped in.
#[derive(Debug)]
pub struct ApiResponse<T> {
    pub body: T,
}

impl<T> ApiResponse<T> {
    /// Wrap a body for the client.
    pub fn new(body: T) -> (r: ApiResponse<T>)
        ensures
            r.body == body,
    {
        ApiResponse { body }
    }
}

/// Validation messages grouped by field name. Field names are unique; a
/// message for a known field joins that field's list, in arrival order.
#[derive(Debug)]
pub struct FieldErrors {
    entries: Vec<(String, Vec<String>)>,
}

impl View for FieldErrors {
    type V = Seq<(Seq<char>, Seq<Seq<char>>)>;

    closed spec fn view(&self) -> Seq<(Seq<char>, Seq<Seq<char>>)> {
        self.entries.deep_view()
    }
}

/// Whether some entry carries the given field name.
pub open spec fn spec_has_field(v: Seq<(Seq<char>, Seq<Seq<char>>)>, key: Seq<char>) -> bool {
    exists|j: int| 0 <= j < v.len() && v[j].0 == key
}

/// The index of the entry carrying the given field name.
pub open spec fn spec_field_index(v: Seq<(Seq<char>, Seq<Seq<char>>)>, key: Seq<char>) -> int {
    choose|j: int| 0 <= j < v.len() && v[j].0 == key
}

/// The invariant of the collection: no two entries share a field name.
pub open spec fn unique_fields(v: Seq<(Seq<char>, Seq<Seq<char>>)>) -> bool {
    forall|i: int, j: int| 0 <= i < j < v.len() ==> v[i].0 != v[j].0
}

impl FieldErrors {
    /// No errors yet.
    pub fn new() -> (r: FieldErrors)
        ensures
            r@ == Seq::<(Seq<char>, Seq<Seq<char>>)>::empty(),
            unique_fields(r@),
    {
        let r = FieldErrors { entries: Vec::new() };
        proof {
            assert(r@ =~= Seq::<(Seq<char>, Seq<Seq<char>>)>::empty());
        }
        r
    }

    /// Whether no field has an error.
    pub fn is_empty(&self) -> (r: bool)
        ensures
            r == (self@.len() == 0),
    {
        self.entries.len() == 0
    }

    /// Record one message for one field: a known field's list grows by the
    /// message; an unknown field gains a fresh one-message list at the end.
    pub fn add_error(&mut self, field: &str, msg: &str)
        requires
            unique_fields(old(self)@),
        ensures
            unique_fields(final(self)@),
            spec_has_field(old(self)@, field@) ==> final(self)@ == old(self)@.update(
                spec_field_index(old(self)@, field@),
                (field@, old(self)@[spec_field_index(old(self)@, field@)].1.push(msg@)),
            ),
            !spec_has_field(old(self)@, field@) ==> final(self)@ == old(self)@.push(
                (field@, seq![msg@]),
            ),
    {
        let ghost v0 = self@;
        let key = String::from_str(field);
        let n = self.entries.len();
        let mut i: usize = 0;
        proof {
            assert(v0.len() == self.entries@.len());
        }
        while i < n
            invariant
                v0 == old(self)@,
                v0 == self@,
                v0 == self.entries.deep_view(),
                unique_fields(v0),
                n == self.entries@.len(),
                v0.len() == n,
                key@ == field@,
                0 <= i <= n,
                forall|j: int| 0 <= j < i ==> v0[j].0 != field@,
            decreases n - i,
        {
            proof {
                assert(v0[i as int] == self.entries@[i as int].deep_view());
            }
            if self.entries[i].0 == key {
                proof {
                    assert(v0[i as int].0 == field@);
                    assert(spec_has_field(v0, field@));
                    let j = spec_field_index(v0, field@);
                    if j != i {
                        assert(v0[j].0 == field@);
                        assert(false);
                    }
                }
                let entry = self.entries.remove(i);
                let (k, mut msgs) = entry;
                let ghost msgs0 = msgs.deep_view();
                msgs.push(msg.to_owned());
                proof {
                    assert(msgs.deep_view() =~~= msgs0.push(msg@));
                }
                self.entries.insert(i, (k, msgs));
                proof {
                    assert(self@ =~~= v0.update(i as int, (field@, v0[i as int].1.push(msg@))));
                }
                return ;
            }
            i = i + 1;
        }
        proof {
            assert(!spec_has_field(v0, field@));
        }
        let mut msgs: Vec<String> = Vec::new();
        msgs.push(msg.to_owned());
        proof {
            assert(msgs.deep_view() =~~= seq![msg@]);
        }
        self.entries.push((key, msgs));
        proof {
            assert(self@ =~~= v0.push((field@, seq![msg@])));
        }
    }
}

/// The client-facing error record: an HTTP status, a public message, and
/// the field errors, when validation produced any.
#[derive(Debug)]
pub struct ApiErr {
    pub message: String,
    pub status_code: u16,
    pub field_errors: Option<FieldErrors>,
}

impl ApiErr {
    /// The error a failed validation is reported as: a bad-request status
    /// with the public save-failure message and the collected field errors.
    pub fn from_field_errors(errors: FieldErrors) -> (r: ApiErr)
        ensures
            r.status_code == 400,
            r.message@ == "Unable to save record"@,
            r.field_errors is Some,
            r.field_errors.unwrap()@ == errors@,
    {
        ApiErr {
            message: String::from_str("Unable to save record"),
            status_code: 400,
            field_errors: Some(errors),
        }
    }
}

} // verus!
