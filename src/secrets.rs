use vstd::prelude::*;
use vstd::string::StringExecFns;

verus! {

/// A document as the secret store returns it, reduced to what a run reads:
/// strings, objects with their fields in order, and every other value.
#[derive(Debug)]
pub enum Document {
    Text(String),
    Object(Vec<(String, Document)>),
    Other,
}

/// A secret's value: a plain string, or anything structured or non-string.
#[derive(Debug)]
pub enum SecretValue {
    Text(String),
    Structured,
}

/// The key under which the store's versioned envelope holds the secret fields.
pub open spec fn envelope_key() -> Seq<char> {
    seq!['d', 'a', 't', 'a']
}

/// The index of the first field named `key`, if any.
pub open spec fn field_index(fields: Seq<(String, Document)>, key: Seq<char>) -> Option<int> {
    if exists|i: int| 0 <= i < fields.len() && (#[trigger] fields[i]).0@ == key {
        Some(
            choose|i: int|
                0 <= i < fields.len() && (#[trigger] fields[i]).0@ == key && forall|k: int|
                    0 <= k < i ==> (#[trigger] fields[k]).0@ != key,
        )
    } else {
        None
    }
}

/// The fields of the object under the envelope key of a top-level object;
/// empty when either object is missing.
pub open spec fn envelope_fields(doc: Document) -> Seq<(String, Document)> {
    match doc {
        Document::Object(fields) => match field_index(fields@, envelope_key()) {
            Some(i) => match fields@[i].1 {
                Document::Object(inner) => inner@,
                _ => Seq::empty(),
            },
            None => Seq::empty(),
        },
        _ => Seq::empty(),
    }
}

/// A field's value as a secret: strings are kept, everything else is structured.
pub open spec fn secret_value_of(d: Document) -> SecretValue {
    match d {
        Document::Text(s) => SecretValue::Text(s),
        _ => SecretValue::Structured,
    }
}

/// The secret collection of a document: one entry per envelope field, in
/// order, with the field's key and its value as a secret.
pub open spec fn collection_of(doc: Document) -> Seq<(String, SecretValue)> {
    envelope_fields(doc).map_values(|f: (String, Document)| (f.0, secret_value_of(f.1)))
}

fn to_secret(d: Document) -> (r: SecretValue)
    ensures
        r == secret_value_of(d),
{
    match d {
        Document::Text(s) => SecretValue::Text(s),
        _ => SecretValue::Structured,
    }
}

fn secret_fields(fields: Vec<(String, Document)>) -> (r: Vec<(String, SecretValue)>)
    ensures
        r@ == fields@.map_values(|f: (String, Document)| (f.0, secret_value_of(f.1))),
{
    let ghost all = fields@;
    let mut rest = fields;
    let mut out: Vec<(String, SecretValue)> = Vec::new();
    while rest.len() > 0
        invariant
            out@.len() + rest@.len() == all.len(),
            rest@ == all.subrange(out@.len() as int, all.len() as int),
            out@ == all.subrange(0, out@.len() as int).map_values(
                |f: (String, Document)| (f.0, secret_value_of(f.1)),
            ),
        decreases rest@.len(),
    {
        let ghost n = out@.len() as int;
        let (key, value) = rest.remove(0);
        out.push((key, to_secret(value)));
        proof {
            assert(rest@ =~= all.subrange(n + 1, all.len() as int));
            assert(out@ =~= all.subrange(0, n + 1).map_values(
                |f: (String, Document)| (f.0, secret_value_of(f.1)),
            ));
        }
    }
    proof {
        assert(all.subrange(0, all.len() as int) =~= all);
    }
    out
}

fn find_field(fields: &Vec<(String, Document)>, key: &String) -> (r: Option<usize>)
    ensures
        match r {
            Some(i) => i < fields@.len() && field_index(fields@, key@) == Some(i as int),
            None => field_index(fields@, key@) is None,
        },
{
    let mut i: usize = 0;
    while i < fields.len()
        invariant
            i <= fields@.len(),
            forall|k: int| 0 <= k < i ==> (#[trigger] fields@[k]).0@ != key@,
        decreases fields@.len() - i,
    {
        if fields[i].0 == *key {
            proof {
                let j = choose|j: int|
                    0 <= j < fields@.len() && (#[trigger] fields@[j]).0@ == key@ && forall|k: int|
                        0 <= k < j ==> (#[trigger] fields@[k]).0@ != key@;
                assert(fields@[i as int].0@ == key@);
                if j < i {
                } else if j > i {
                    assert(fields@[i as int].0@ != key@);
                }
            }
            return Some(i);
        }
        i += 1;
    }
    None
}

/// Unwraps the store's envelope: the secret fields are those of the object
/// held under `data` in the top-level object. A document of another shape
/// gives an empty collection.
pub fn secret_collection(doc: Document) -> (r: Vec<(String, SecretValue)>)
    ensures
        r@ == collection_of(doc),
{
    match doc {
        Document::Object(fields) => {
            let mut fields = fields;
            let key = String::from_str("data");
            proof {
                reveal_strlit("data");
                assert(key@ =~= envelope_key());
            }
            match find_field(&fields, &key) {
                Some(i) => {
                    let (_, inner) = fields.remove(i);
                    match inner {
                        Document::Object(secret) => secret_fields(secret),
                        _ => Vec::new(),
                    }
                },
                None => Vec::new(),
            }
        },
        _ => Vec::new(),
    }
}

} // verus!
