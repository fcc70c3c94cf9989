//! Template substitution.
//!
//! A template is scanned left to right. Each `{name}` span is replaced by
//! the already-resolved value of `name`; the substituted text is inserted
//! literally and never re-scanned. A `{` with no later `}` is copied
//! literally, together with the rest of the text. A name that is not
//! resolved yet fails: with a forward-reference outcome when it is a
//! registered identifier (a template that sorts later, or the template
//! itself), and with an unknown-constant outcome otherwise.

use vstd::prelude::*;

use crate::str_table::StrTable;
use crate::text::find_char;
use crate::text::lemma_find_char;
use crate::text::str_eq;

verus! {

/// Outcome of substituting one template.
pub enum TemplateOutcome {
    /// The substituted text.
    Done(Seq<char>),
    /// The template references this identifier, which is not registered.
    Unknown(Seq<char>),
    /// The template references this registered identifier, which is not
    /// resolved at the point of lookup.
    Forward(Seq<char>),
}

/// Prefixes successful output with `p`; failures pass through unchanged.
pub open spec fn prepend(p: Seq<char>, o: TemplateOutcome) -> TemplateOutcome {
    match o {
        TemplateOutcome::Done(s) => TemplateOutcome::Done(p + s),
        _ => o,
    }
}

/// The meaning of one template under a mapping of already-resolved values
/// and the set of all registered identifiers.
pub open spec fn substitute(
    t: Seq<char>,
    resolved: Map<Seq<char>, Seq<char>>,
    known: Set<Seq<char>>,
) -> TemplateOutcome
    decreases t.len(),
    via substitute_decreases
{
    if t.len() == 0 {
        TemplateOutcome::Done(Seq::empty())
    } else if t[0] != '{' {
        prepend(seq![t[0]], substitute(t.skip(1), resolved, known))
    } else {
        match find_char(t.skip(1), '}') {
            None => TemplateOutcome::Done(t),
            Some(j) => {
                let name = t.skip(1).take(j);
                if resolved.contains_key(name) {
                    prepend(resolved[name], substitute(t.skip(j + 2), resolved, known))
                } else if known.contains(name) {
                    TemplateOutcome::Forward(name)
                } else {
                    TemplateOutcome::Unknown(name)
                }
            },
        }
    }
}

#[via_fn]
proof fn substitute_decreases(
    t: Seq<char>,
    resolved: Map<Seq<char>, Seq<char>>,
    known: Set<Seq<char>>,
) {
    if t.len() > 0 && t[0] == '{' {
        lemma_find_char(t.skip(1), '}');
    }
}

/// The identifiers a template references through well-formed `{name}`
/// spans.
pub open spec fn references(t: Seq<char>) -> Set<Seq<char>>
    decreases t.len(),
    via references_decreases
{
    if t.len() == 0 {
        Set::empty()
    } else if t[0] != '{' {
        references(t.skip(1))
    } else {
        match find_char(t.skip(1), '}') {
            None => Set::empty(),
            Some(j) => references(t.skip(j + 2)).insert(t.skip(1).take(j)),
        }
    }
}

#[via_fn]
proof fn references_decreases(t: Seq<char>) {
    if t.len() > 0 && t[0] == '{' {
        lemma_find_char(t.skip(1), '}');
    }
}

/// A template whose references are all resolved always substitutes
/// successfully.
pub proof fn lemma_template_all_resolved(
    t: Seq<char>,
    resolved: Map<Seq<char>, Seq<char>>,
    known: Set<Seq<char>>,
)
    requires
        references(t).subset_of(resolved.dom()),
    ensures
        substitute(t, resolved, known) is Done,
    decreases t.len(),
{
    if t.len() == 0 {
    } else if t[0] != '{' {
        lemma_template_all_resolved(t.skip(1), resolved, known);
    } else {
        lemma_find_char(t.skip(1), '}');
        match find_char(t.skip(1), '}') {
            None => {},
            Some(j) => {
                let name = t.skip(1).take(j);
                assert(references(t).contains(name));
                assert forall|x: Seq<char>| references(t.skip(j + 2)).contains(x)
                    implies resolved.dom().contains(x) by {
                    assert(references(t).contains(x));
                }
                lemma_template_all_resolved(t.skip(j + 2), resolved, known);
            },
        }
    }
}

/// A template whose references are all resolved except the single
/// identifier `n` fails naming exactly `n`: as a forward reference when
/// `n` is registered, as an unknown constant otherwise.
pub proof fn lemma_template_missing(
    t: Seq<char>,
    resolved: Map<Seq<char>, Seq<char>>,
    known: Set<Seq<char>>,
    n: Seq<char>,
)
    requires
        references(t).subset_of(resolved.dom().insert(n)),
        references(t).contains(n),
        !resolved.dom().contains(n),
    ensures
        substitute(t, resolved, known) == if known.contains(n) {
            TemplateOutcome::Forward(n)
        } else {
            TemplateOutcome::Unknown(n)
        },
    decreases t.len(),
{
    if t.len() == 0 {
    } else if t[0] != '{' {
        lemma_template_missing(t.skip(1), resolved, known, n);
    } else {
        lemma_find_char(t.skip(1), '}');
        match find_char(t.skip(1), '}') {
            None => {},
            Some(j) => {
                let name = t.skip(1).take(j);
                if name == n {
                } else {
                    assert(references(t).contains(name));
                    assert(resolved.dom().contains(name));
                    assert(references(t.skip(j + 2)).contains(n));
                    assert forall|x: Seq<char>| references(t.skip(j + 2)).contains(x)
                        implies resolved.dom().insert(n).contains(x) by {
                        assert(references(t).contains(x));
                    }
                    lemma_template_missing(t.skip(j + 2), resolved, known, n);
                }
            },
        }
    }
}

/// A failed substitution, carrying the offending identifier.
#[derive(Debug)]
pub enum TemplateFailure {
    Unknown(String),
    Forward(String),
}

/// The outcome an executable result stands for.
pub open spec fn outcome_of(r: Result<String, TemplateFailure>) -> TemplateOutcome {
    match r {
        Ok(s) => TemplateOutcome::Done(s@),
        Err(TemplateFailure::Unknown(nm)) => TemplateOutcome::Unknown(nm@),
        Err(TemplateFailure::Forward(nm)) => TemplateOutcome::Forward(nm@),
    }
}

/// The views of a sequence of strings.
pub open spec fn str_views(s: Seq<String>) -> Seq<Seq<char>> {
    s.map_values(|x: String| x@)
}

/// The set of views of a sequence of strings.
pub open spec fn strset(s: Seq<String>) -> Set<Seq<char>> {
    Set::new(|x: Seq<char>| exists|i: int| 0 <= i < s.len() && s[i]@ == x)
}

/// Whether `k` occurs among `v`.
pub fn contains_str(v: &Vec<String>, k: &str) -> (r: bool)
    ensures
        r == strset(v@).contains(k@),
{
    let mut i: usize = 0;
    while i < v.len()
        invariant
            i <= v@.len(),
            forall|j: int| 0 <= j < i ==> #[trigger] v@[j]@ != k@,
        decreases v@.len() - i,
    {
        if str_eq(v[i].as_str(), k) {
            return true;
        }
        i += 1;
    }
    false
}

/// Substitutes one template against the already-resolved values in
/// `resolved`; `known` lists every registered identifier, so that a failed
/// lookup can be classified.
pub fn resolve_template(t: &str, resolved: &StrTable, known: &Vec<String>) -> (r: Result<
    String,
    TemplateFailure,
>)
    ensures
        outcome_of(r) == substitute(t@, resolved@, strset(known@)),
    decreases t@.len(),
{
    let n = t.unicode_len();
    if n == 0 {
        return Ok(String::new());
    }
    let c0 = t.get_char(0);
    if c0 != '{' {
        let head = t.substring_char(0, 1);
        let tail = t.substring_char(1, n);
        proof {
            assert(tail@ =~= t@.skip(1));
            assert(head@ =~= seq![t@[0]]);
        }
        match resolve_template(tail, resolved, known) {
            Ok(s) => {
                let mut out = String::from_str(head);
                out.append(s.as_str());
                Ok(out)
            },
            Err(e) => Err(e),
        }
    } else {
        let mut j: usize = 1;
        loop
            invariant_except_break
                1 <= j <= n,
                n == t@.len(),
                forall|k: int| 1 <= k < j ==> t@[k] != '}',
            ensures
                1 <= j <= n,
                n == t@.len(),
                forall|k: int| 1 <= k < j ==> t@[k] != '}',
                j == n || t@[j as int] == '}',
            decreases n - j,
        {
            if j == n {
                break;
            }
            if t.get_char(j) == '}' {
                break;
            }
            j += 1;
        }
        if j == n {
            proof {
                lemma_find_char(t@.skip(1), '}');
                match find_char(t@.skip(1), '}') {
                    None => {},
                    Some(i) => {
                        assert(t@[i + 1] == t@.skip(1)[i]);
                        assert(false);
                    },
                }
            }
            return Ok(String::from_str(t));
        }
        proof {
            lemma_find_char(t@.skip(1), '}');
            match find_char(t@.skip(1), '}') {
                None => {
                    assert(t@.skip(1)[j - 1] == t@[j as int]);
                    assert(false);
                },
                Some(i) => {
                    if i < j - 1 {
                        assert(t@[i + 1] == t@.skip(1)[i]);
                        assert(false);
                    }
                    if i > j - 1 {
                        assert(t@.skip(1)[j - 1] == t@[j as int]);
                        assert(false);
                    }
                    assert(i == j - 1);
                },
            }
        }
        let name = t.substring_char(1, j);
        let rest = t.substring_char(j + 1, n);
        proof {
            assert(name@ =~= t@.skip(1).take(j - 1));
            assert(rest@ =~= t@.skip(1 + (j - 1) + 1));
        }
        match resolved.get(name) {
            Some(v) => {
                match resolve_template(rest, resolved, known) {
                    Ok(s) => {
                        let mut out = String::from_str(v.as_str());
                        out.append(s.as_str());
                        Ok(out)
                    },
                    Err(e) => Err(e),
                }
            },
            None => {
                if contains_str(known, name) {
                    Err(TemplateFailure::Forward(String::from_str(name)))
                } else {
                    Err(TemplateFailure::Unknown(String::from_str(name)))
                }
            },
        }
    }
}

} // verus!
