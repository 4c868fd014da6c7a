use crate::conf::Var;
use crate::quote::{quote_value, sh_single_quoted};
use crate::secrets::SecretValue;
use vstd::prelude::*;
use vstd::utf8::encode_utf8;

verus! {

/// One line to emit: the variable's name and the value's quoted bytes.
#[derive(Debug)]
pub struct ExportLine {
    target_name: String,
    value: Vec<u8>,
}

impl View for ExportLine {
    type V = (Seq<char>, Seq<u8>);

    closed spec fn view(&self) -> (Seq<char>, Seq<u8>) {
        (self.target_name@, self.value@)
    }
}

/// The bytes `export ` that open every line.
pub open spec fn export_prefix() -> Seq<u8> {
    seq![0x65u8, 0x78u8, 0x70u8, 0x6fu8, 0x72u8, 0x74u8, 0x20u8]
}

/// The text of a line: `export NAME=VALUE`, without a line break.
pub open spec fn line_bytes(l: (Seq<char>, Seq<u8>)) -> Seq<u8> {
    export_prefix() + encode_utf8(l.0) + seq![0x3du8] + l.1
}

/// The views of a sequence of lines.
pub open spec fn views(lines: Seq<ExportLine>) -> Seq<(Seq<char>, Seq<u8>)> {
    lines.map_values(|l: ExportLine| l@)
}

/// The index of the first rule for the secret field `key`, if any.
pub open spec fn first_match(rules: Seq<Var>, key: Seq<char>) -> Option<int> {
    if exists|i: int| 0 <= i < rules.len() && (#[trigger] rules[i]).spec_key() == key {
        Some(
            choose|i: int|
                0 <= i < rules.len() && (#[trigger] rules[i]).spec_key() == key && forall|k: int|
                    0 <= k < i ==> (#[trigger] rules[k]).spec_key() != key,
        )
    } else {
        None
    }
}

/// The line that one secret gives: a string value with a rule for its key
/// is exported under the first such rule's name.
pub open spec fn line_for(entry: (String, SecretValue), rules: Seq<Var>) -> Option<
    (Seq<char>, Seq<u8>),
> {
    match entry.1 {
        SecretValue::Text(v) => match first_match(rules, entry.0@) {
            Some(i) => Some((rules[i].spec_export_to(), sh_single_quoted(encode_utf8(v@)))),
            None => None,
        },
        SecretValue::Structured => None,
    }
}

/// The lines of a collection: those of its secrets, in the collection's order.
pub open spec fn projection(entries: Seq<(String, SecretValue)>, rules: Seq<Var>) -> Seq<
    (Seq<char>, Seq<u8>),
>
    decreases entries.len(),
{
    if entries.len() == 0 {
        Seq::empty()
    } else {
        let before = projection(entries.drop_last(), rules);
        match line_for(entries.last(), rules) {
            Some(l) => before.push(l),
            None => before,
        }
    }
}

pub(crate) proof fn lemma_first_match_at(rules: Seq<Var>, key: Seq<char>, i: int)
    requires
        0 <= i < rules.len(),
        rules[i].spec_key() == key,
        forall|k: int| 0 <= k < i ==> (#[trigger] rules[k]).spec_key() != key,
    ensures
        first_match(rules, key) == Some(i),
{
    let j = choose|j: int|
        0 <= j < rules.len() && (#[trigger] rules[j]).spec_key() == key && forall|k: int|
            0 <= k < j ==> (#[trigger] rules[k]).spec_key() != key;
    assert(rules[i].spec_key() == key);
    if j < i {
        assert(rules[j].spec_key() != key);
    } else if j > i {
        assert(rules[i].spec_key() != key);
    }
}

pub(crate) proof fn lemma_first_match_facts(rules: Seq<Var>, key: Seq<char>)
    ensures
        match first_match(rules, key) {
            Some(i) => 0 <= i < rules.len() && rules[i].spec_key() == key && forall|k: int|
                0 <= k < i ==> (#[trigger] rules[k]).spec_key() != key,
            None => forall|k: int| 0 <= k < rules.len() ==> (#[trigger] rules[k]).spec_key() != key,
        },
{
    if exists|i: int| 0 <= i < rules.len() && (#[trigger] rules[i]).spec_key() == key {
        let i0 = choose|i: int| 0 <= i < rules.len() && (#[trigger] rules[i]).spec_key() == key;
        lemma_least_match(rules, key, i0);
    }
}

proof fn lemma_least_match(rules: Seq<Var>, key: Seq<char>, i: int)
    requires
        0 <= i < rules.len(),
        rules[i].spec_key() == key,
    ensures
        exists|j: int|
            0 <= j < rules.len() && (#[trigger] rules[j]).spec_key() == key && forall|k: int|
                0 <= k < j ==> (#[trigger] rules[k]).spec_key() != key,
    decreases i,
{
    if exists|k: int| 0 <= k < i && (#[trigger] rules[k]).spec_key() == key {
        let k0 = choose|k: int| 0 <= k < i && (#[trigger] rules[k]).spec_key() == key;
        lemma_least_match(rules, key, k0);
    } else {
        assert(forall|k: int| 0 <= k < i ==> (#[trigger] rules[k]).spec_key() != key);
    }
}

fn find_rule(rules: &Vec<Var>, key: &String) -> (r: Option<usize>)
    ensures
        match r {
            Some(i) => i < rules@.len() && first_match(rules@, key@) == Some(i as int),
            None => first_match(rules@, key@) is None,
        },
{
    let mut i: usize = 0;
    while i < rules.len()
        invariant
            i <= rules@.len(),
            forall|k: int| 0 <= k < i ==> (#[trigger] rules@[k]).spec_key() != key@,
        decreases rules@.len() - i,
    {
        let k = rules[i].get_key();
        if string_eq(k, key.as_str()) {
            proof {
                lemma_first_match_at(rules@, key@, i as int);
            }
            return Some(i);
        }
        i += 1;
    }
    None
}

fn string_eq(a: &str, b: &str) -> (r: bool)
    ensures
        r == (a@ == b@),
{
    let x = a.to_owned();
    let y = b.to_owned();
    x == y
}

/// Projects a secret collection onto the export rules: for each secret, in
/// the collection's order, whose value is a string and whose key some rule
/// names, one line under the first such rule's name with the quoted value.
/// Secrets without a rule, structured values and rules without a secret
/// give nothing; no input is refused.
pub fn project(entries: &Vec<(String, SecretValue)>, rules: &Vec<Var>) -> (r: Vec<ExportLine>)
    ensures
        views(r@) == projection(entries@, rules@),
        r@.len() <= entries@.len(),
{
    let mut out: Vec<ExportLine> = Vec::new();
    let mut i: usize = 0;
    while i < entries.len()
        invariant
            i <= entries@.len(),
            views(out@) == projection(entries@.subrange(0, i as int), rules@),
            out@.len() <= i,
        decreases entries@.len() - i,
    {
        proof {
            let s = entries@.subrange(0, i as int + 1);
            assert(s.drop_last() =~= entries@.subrange(0, i as int));
            assert(s.last() == entries@[i as int]);
        }
        if let SecretValue::Text(v) = &entries[i].1 {
            if let Some(j) = find_rule(rules, &entries[i].0) {
                let line = ExportLine {
                    target_name: rules[j].get_export_to().to_owned(),
                    value: quote_value(v.as_str()),
                };
                out.push(line);
                proof {
                    assert(views(out@) =~= projection(entries@.subrange(0, i as int), rules@).push(
                        line@,
                    ));
                }
            }
        }
        i += 1;
    }
    proof {
        assert(entries@.subrange(0, entries@.len() as int) =~= entries@);
    }
    out
}

impl ExportLine {
    /// The name of the exported variable.
    pub fn target_name(&self) -> (r: &str)
        ensures
            r@ == self@.0,
    {
        self.target_name.as_str()
    }

    /// The quoted value, ready to stand as one shell word.
    pub fn quoted_value(&self) -> (r: &[u8])
        ensures
            r@ == self@.1,
    {
        self.value.as_slice()
    }

    /// The line's text, `export NAME=VALUE`, without a line break.
    pub fn render(&self) -> (r: Vec<u8>)
        ensures
            r@ == line_bytes(self@),
    {
        let mut out: Vec<u8> = Vec::new();
        out.push(0x65u8);
        out.push(0x78u8);
        out.push(0x70u8);
        out.push(0x6fu8);
        out.push(0x72u8);
        out.push(0x74u8);
        out.push(0x20u8);
        proof {
            assert(out@ =~= export_prefix());
        }
        append_bytes(&mut out, self.target_name.as_str().as_bytes());
        out.push(0x3du8);
        append_bytes(&mut out, self.value.as_slice());
        proof {
            assert(out@ =~= line_bytes(self@));
        }
        out
    }
}

fn append_bytes(out: &mut Vec<u8>, b: &[u8])
    ensures
        final(out)@ == old(out)@ + b@,
{
    let ghost start = out@;
    let mut i: usize = 0;
    while i < b.len()
        invariant
            i <= b@.len(),
            out@ == start + b@.subrange(0, i as int),
        decreases b@.len() - i,
    {
        out.push(b[i]);
        i += 1;
        proof {
            assert(out@ =~= start + b@.subrange(0, i as int));
        }
    }
    proof {
        assert(b@.subrange(0, b@.len() as int) =~= b@);
    }
}

} // verus!
