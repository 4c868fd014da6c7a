use crate::conf::Var;
use crate::export::{first_match, lemma_first_match_at, lemma_first_match_facts, line_for, projection};
use crate::secrets::SecretValue;
use vstd::prelude::*;

verus! {

/// The lines of two collections one after the other are the lines of the
/// first followed by those of the second.
pub proof fn lemma_projection_concat(
    a: Seq<(String, SecretValue)>,
    b: Seq<(String, SecretValue)>,
    rules: Seq<Var>,
)
    ensures
        projection(a + b, rules) == projection(a, rules) + projection(b, rules),
    decreases b.len(),
{
    if b.len() == 0 {
        assert(a + b =~= a);
        assert(projection(a, rules) + projection(b, rules) =~= projection(a, rules));
    } else {
        assert((a + b).drop_last() =~= a + b.drop_last());
        assert((a + b).last() == b.last());
        lemma_projection_concat(a, b.drop_last(), rules);
        match line_for(b.last(), rules) {
            Some(l) => {
                assert(projection(a, rules) + projection(b.drop_last(), rules).push(l) =~= (
                projection(a, rules) + projection(b.drop_last(), rules)).push(l));
            },
            None => {},
        }
    }
}

/// No collection gives more lines than it has secrets.
pub proof fn lemma_at_most_one_line_per_secret(entries: Seq<(String, SecretValue)>, rules: Seq<Var>)
    ensures
        projection(entries, rules).len() <= entries.len(),
    decreases entries.len(),
{
    if entries.len() > 0 {
        lemma_at_most_one_line_per_secret(entries.drop_last(), rules);
    }
}

/// An empty collection, or an empty rule list, gives no lines.
pub proof fn lemma_projection_of_nothing(entries: Seq<(String, SecretValue)>, rules: Seq<Var>)
    requires
        entries.len() == 0 || rules.len() == 0,
    ensures
        projection(entries, rules) == Seq::<(Seq<char>, Seq<u8>)>::empty(),
    decreases entries.len(),
{
    if entries.len() > 0 {
        lemma_projection_of_nothing(entries.drop_last(), rules);
    }
}

proof fn lemma_projection_pointwise(
    entries: Seq<(String, SecretValue)>,
    r1: Seq<Var>,
    r2: Seq<Var>,
)
    requires
        forall|i: int| 0 <= i < entries.len() ==> line_for(#[trigger] entries[i], r1) == line_for(entries[i], r2),
    ensures
        projection(entries, r1) == projection(entries, r2),
    decreases entries.len(),
{
    if entries.len() > 0 {
        let d = entries.drop_last();
        assert forall|i: int| 0 <= i < d.len() implies line_for(#[trigger] d[i], r1) == line_for(d[i], r2) by {
            assert(d[i] == entries[i]);
        }
        lemma_projection_pointwise(d, r1, r2);
        assert(line_for(entries[entries.len() - 1], r1) == line_for(entries[entries.len() - 1], r2));
    }
}

/// A secret whose value is structured gives no line, wherever it stands and
/// whatever the rules say.
pub proof fn lemma_structured_secret_skipped(
    before: Seq<(String, SecretValue)>,
    after: Seq<(String, SecretValue)>,
    key: String,
    rules: Seq<Var>,
)
    ensures
        projection(before + seq![(key, SecretValue::Structured)] + after, rules) == projection(
            before + after,
            rules,
        ),
{
    lemma_secret_without_line(before, after, (key, SecretValue::Structured), rules);
}

/// A secret whose key no rule names gives no line and changes no other line.
pub proof fn lemma_unmatched_secret_skipped(
    before: Seq<(String, SecretValue)>,
    after: Seq<(String, SecretValue)>,
    entry: (String, SecretValue),
    rules: Seq<Var>,
)
    requires
        first_match(rules, entry.0@) is None,
    ensures
        projection(before + seq![entry] + after, rules) == projection(before + after, rules),
{
    lemma_secret_without_line(before, after, entry, rules);
}

proof fn lemma_secret_without_line(
    before: Seq<(String, SecretValue)>,
    after: Seq<(String, SecretValue)>,
    entry: (String, SecretValue),
    rules: Seq<Var>,
)
    requires
        line_for(entry, rules) is None,
    ensures
        projection(before + seq![entry] + after, rules) == projection(before + after, rules),
{
    let one = seq![entry];
    lemma_projection_concat(before + one, after, rules);
    lemma_projection_concat(before, one, rules);
    lemma_projection_concat(before, after, rules);
    assert(one.drop_last() =~= Seq::<(String, SecretValue)>::empty());
    assert(one.last() == entry);
    assert(projection(one.drop_last(), rules) =~= Seq::<(Seq<char>, Seq<u8>)>::empty());
    assert(projection(one, rules) =~= Seq::<(Seq<char>, Seq<u8>)>::empty());
    assert(projection(before, rules) + projection(one, rules) =~= projection(before, rules));
}

/// A rule whose key no secret of the collection has changes no line,
/// wherever it is added to the rules.
pub proof fn lemma_unused_rule_ignored(
    entries: Seq<(String, SecretValue)>,
    rules: Seq<Var>,
    p: int,
    rule: Var,
)
    requires
        0 <= p <= rules.len(),
        forall|i: int| 0 <= i < entries.len() ==> (#[trigger] entries[i]).0@ != rule.spec_key(),
    ensures
        projection(entries, rules.insert(p, rule)) == projection(entries, rules),
{
    let more = rules.insert(p, rule);
    assert forall|i: int| 0 <= i < entries.len() implies line_for(#[trigger] entries[i], more)
        == line_for(entries[i], rules) by {
        let key = entries[i].0@;
        lemma_first_match_facts(rules, key);
        match first_match(rules, key) {
            Some(m) => {
                if m < p {
                    assert forall|k: int| 0 <= k < m implies (#[trigger] more[k]).spec_key()
                        != key by {
                        assert(more[k] == rules[k]);
                    }
                    assert(more[m] == rules[m]);
                    lemma_first_match_at(more, key, m);
                } else {
                    assert forall|k: int| 0 <= k < m + 1 implies (#[trigger] more[k]).spec_key()
                        != key by {
                        if k < p {
                            assert(more[k] == rules[k]);
                        } else if k > p {
                            assert(more[k] == rules[k - 1]);
                        }
                    }
                    assert(more[m + 1] == rules[m]);
                    lemma_first_match_at(more, key, m + 1);
                }
            },
            None => {
                assert forall|k: int| 0 <= k < more.len() implies (#[trigger] more[k]).spec_key()
                    != key by {
                    if k < p {
                        assert(more[k] == rules[k]);
                    } else if k > p {
                        assert(more[k] == rules[k - 1]);
                    }
                }
            },
        }
    }
    lemma_projection_pointwise(entries, more, rules);
}

/// Of two rules for the same secret key, the later one is never used: taking
/// it out changes no line.
pub proof fn lemma_first_rule_wins(
    entries: Seq<(String, SecretValue)>,
    rules: Seq<Var>,
    i: int,
    j: int,
)
    requires
        0 <= i < j < rules.len(),
        rules[i].spec_key() == rules[j].spec_key(),
    ensures
        projection(entries, rules.remove(j)) == projection(entries, rules),
{
    let fewer = rules.remove(j);
    assert forall|e: int| 0 <= e < entries.len() implies line_for(#[trigger] entries[e], fewer)
        == line_for(entries[e], rules) by {
        let key = entries[e].0@;
        lemma_first_match_facts(rules, key);
        match first_match(rules, key) {
            Some(m) => {
                if m < j {
                    assert forall|k: int| 0 <= k < m implies (#[trigger] fewer[k]).spec_key()
                        != key by {
                        assert(fewer[k] == rules[k]);
                    }
                    assert(fewer[m] == rules[m]);
                    lemma_first_match_at(fewer, key, m);
                } else {
                    if m == j {
                        assert(rules[i].spec_key() != key);
                    }
                    assert(rules[i].spec_key() != key);
                    assert forall|k: int| 0 <= k < m - 1 implies (#[trigger] fewer[k]).spec_key()
                        != key by {
                        if k < j {
                            assert(fewer[k] == rules[k]);
                        } else {
                            assert(fewer[k] == rules[k + 1]);
                        }
                    }
                    assert(fewer[m - 1] == rules[m]);
                    lemma_first_match_at(fewer, key, m - 1);
                }
            },
            None => {
                assert forall|k: int| 0 <= k < fewer.len() implies (#[trigger] fewer[k]).spec_key()
                    != key by {
                    if k < j {
                        assert(fewer[k] == rules[k]);
                    } else {
                        assert(fewer[k] == rules[k + 1]);
                    }
                }
            },
        }
    }
    lemma_projection_pointwise(entries, fewer, rules);
}

} // verus!
