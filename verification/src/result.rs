//! Reports the outcome of a query as a line of text.

use vstd::prelude::*;
use core::time::Duration;
use crate::terms::TermView;
use crate::terms::Term;
use crate::text::{decimal, digits, join, join_texts, push_decimal, push_digits, view_texts};
use crate::unification::{apply_fuel, resolves, Bindings, Substitution};

verus! {

/// The substrings of `text` that the regular expression `pattern` matches,
/// from left to right; `None` when `pattern` is no regular expression.
pub uninterp spec fn pattern_matches(pattern: Seq<char>, text: Seq<char>) -> Option<Seq<Seq<char>>>;

/// The whole milliseconds that a duration holds.
pub uninterp spec fn duration_millis(duration: Duration) -> u128;

/// `Duration::as_millis` from the standard library: the whole milliseconds
/// of the duration, a function of the duration alone.
pub assume_specification[ core::time::Duration::as_millis ](duration: &Duration) -> (millis: u128)
    ensures
        millis == duration_millis(*duration),
;

/// The character sequences of an optional list of strings.
pub open spec fn view_found(found: Option<Vec<String>>) -> Option<Seq<Seq<char>>> {
    match found {
        Some(texts) => Some(view_texts(texts@)),
        None => None,
    }
}

/// `Regex::new` and `Regex::find_iter` of the regex crate: compiles
/// `pattern` and collects, from left to right, the substrings of `text` that
/// its successive non-overlapping matches cover. `None` when the pattern
/// does not compile. The result depends on `pattern` and `text` alone.
#[verifier::external_body]
fn find_matches(pattern: &str, text: &str) -> (found: Option<Vec<String>>)
    ensures
        view_found(found) == pattern_matches(pattern@, text@),
{
    match regex::Regex::new(pattern) {
        Ok(re) => Some(re.find_iter(text).map(|found| found.as_str().to_string()).collect()),
        Err(_) => None,
    }
}

/// The regular expression for a variable name: a word that begins with an
/// upper-case letter or an underscore.
pub open spec fn variable_pattern() -> Seq<char> {
    "\\b[A-Z_][A-Za-z0-9_]*\\b"@
}

/// The variable names in the text of a query, from left to right. Without a
/// usable pattern there are none.
pub open spec fn query_variables(query: Seq<char>) -> Seq<Seq<char>> {
    match pattern_matches(variable_pattern(), query) {
        Some(names) => names,
        None => Seq::empty(),
    }
}

/// The variable names in the text of a query, from left to right.
pub fn extract_query_vars(query: &str) -> (names: Vec<String>)
    ensures
        view_texts(names@) == query_variables(query@),
{
    match find_matches("\\b[A-Z_][A-Za-z0-9_]*\\b", query) {
        Some(names) => names,
        None => {
            let names: Vec<String> = Vec::new();
            assert(view_texts(names@) =~= Seq::empty());
            names
        },
    }
}

/// The text of a term for display, following at most `fuel` bindings in a
/// row: a bound variable shows as what it is bound to, a compound as
/// `name(arg, arg)`, a list as `[a, b, c]`, or `[a, b | rest]` where the
/// chain of cons cells ends in something other than the empty list.
pub open spec fn shown(t: TermView, m: Bindings, fuel: nat) -> Option<Seq<char>>
    decreases fuel, t, 1nat,
{
    match t {
        TermView::Integer(n) => Some(decimal(n as int)),
        TermView::Constant(c) => Some(c),
        TermView::Variable(v) => if m.contains_key(v) {
            if fuel == 0 {
                None
            } else {
                shown(m[v], m, (fuel - 1) as nat)
            }
        } else {
            Some(v)
        },
        TermView::Compound(name, args) => match shown_each(args, m, fuel) {
            Some(texts) => Some(name + "("@ + join_texts(texts, ", "@) + ")"@),
            None => None,
        },
        TermView::List(_, _) => match shown_rest(t, m, fuel) {
            Some(rest) => Some("["@ + rest),
            None => None,
        },
        TermView::EmptyList => Some("[]"@),
    }
}

/// The texts of the terms of a sequence; `None` when one of them has none.
pub open spec fn shown_each(terms: Seq<TermView>, m: Bindings, fuel: nat) -> Option<Seq<Seq<char>>>
    decreases fuel, terms, 2nat,
{
    if forall|i: int| 0 <= i < terms.len() ==> shown(#[trigger] terms[i], m, fuel) is Some {
        Some(
            Seq::new(
                terms.len(),
                |i: int|
                    if 0 <= i < terms.len() {
                        shown(terms[i], m, fuel)->0
                    } else {
                        Seq::empty()
                    },
            ),
        )
    } else {
        None
    }
}

/// The text of a list from its first element to the closing bracket.
pub open spec fn shown_rest(list: TermView, m: Bindings, fuel: nat) -> Option<Seq<char>>
    decreases fuel, list, 0nat,
{
    match list {
        TermView::List(head, tail) => match shown(*head, m, fuel) {
            Some(first) => match *tail {
                TermView::List(_, _) => match shown_rest(*tail, m, fuel) {
                    Some(more) => Some(first + ", "@ + more),
                    None => None,
                },
                TermView::EmptyList => Some(first + "]"@),
                _ => match shown(*tail, m, fuel) {
                    Some(end) => Some(first + " | "@ + end + "]"@),
                    None => None,
                },
            },
            None => None,
        },
        _ => None,
    }
}

/// Displaying a term follows the same bindings as applying the bindings to
/// it: the one has a result with some fuel exactly when the other has.
pub proof fn lemma_shown_follows_bindings(m: Bindings, t: TermView, fuel: nat)
    ensures
        shown(t, m, fuel) is Some <==> apply_fuel(m, t, fuel) is Some,
    decreases fuel, t, 1nat,
{
    match t {
        TermView::Variable(v) => {
            if m.contains_key(v) && fuel > 0 {
                lemma_shown_follows_bindings(m, m[v], (fuel - 1) as nat);
            }
        },
        TermView::Compound(name, args) => {
            assert forall|i: int| 0 <= i < args.len() implies (shown(#[trigger] args[i], m, fuel) is Some
                <==> apply_fuel(m, args[i], fuel) is Some) by {
                lemma_shown_follows_bindings(m, args[i], fuel);
            }
            assert(shown_each(args, m, fuel) is Some <==> (forall|i: int|
                0 <= i < args.len() ==> shown(#[trigger] args[i], m, fuel) is Some));
            assert(shown(t, m, fuel) is Some <==> shown_each(args, m, fuel) is Some);
        },
        TermView::List(_, _) => {
            lemma_shown_rest_follows_bindings(m, t, fuel);
            assert(shown(t, m, fuel) is Some <==> shown_rest(t, m, fuel) is Some);
        },
        _ => {},
    }
}

/// Displaying the elements of a list follows the same bindings as applying
/// the bindings to the list.
pub proof fn lemma_shown_rest_follows_bindings(m: Bindings, list: TermView, fuel: nat)
    requires
        list is List,
    ensures
        shown_rest(list, m, fuel) is Some <==> apply_fuel(m, list, fuel) is Some,
    decreases fuel, list, 0nat,
{
    match list {
        TermView::List(head, tail) => {
            lemma_shown_follows_bindings(m, *head, fuel);
            match *tail {
                TermView::List(_, _) => {
                    lemma_shown_rest_follows_bindings(m, *tail, fuel);
                },
                _ => {
                    lemma_shown_follows_bindings(m, *tail, fuel);
                },
            }
        },
        _ => {},
    }
}

/// The text of a term for display. Meaningful where `resolves(m, t)`.
pub open spec fn rendered(m: Bindings, t: TermView) -> Seq<char> {
    shown(t, m, choose|fuel: nat| shown(t, m, fuel) is Some)->0
}

/// One report, `name = text`, for each of the names that is bound, in the
/// order of the names.
pub open spec fn reports(names: Seq<Seq<char>>, m: Bindings) -> Seq<Seq<char>>
    decreases names.len(),
{
    if names.len() == 0 {
        Seq::empty()
    } else {
        let earlier = reports(names.drop_last(), m);
        let name = names.last();
        if m.contains_key(name) {
            earlier.push(name + " = "@ + rendered(m, m[name]))
        } else {
            earlier
        }
    }
}

/// The line that reports a query's outcome: `false` without a solution,
/// `true` with a solution that binds none of the names, else the reports of
/// the bound names, followed by the solve time where it is over ten
/// milliseconds.
pub open spec fn result_text(
    query: Seq<char>,
    names: Seq<Seq<char>>,
    solution: Option<Bindings>,
    millis: u128,
) -> Seq<char> {
    match solution {
        Some(m) => {
            let results = reports(names, m);
            if results.len() == 0 {
                query + " => true"@
            } else if millis > 10 {
                query + " => "@ + join_texts(results, ", "@) + "      |   Solve time: "@ + digits(
                    millis as nat,
                ) + "ms"@
            } else {
                query + " => "@ + join_texts(results, ", "@)
            }
        },
        None => query + " => false"@,
    }
}

/// Whether the term of every name that the solution binds can be shown:
/// every chain of bindings in it ends.
pub open spec fn reportable(names: Seq<Seq<char>>, solution: Option<Bindings>) -> bool {
    match solution {
        Some(m) => forall|i: int|
            0 <= i < names.len() && m.contains_key(#[trigger] names[i]) ==> resolves(m, m[names[i]]),
        None => true,
    }
}

/// Appends the text of a term for display to `out`.
fn write_shown(term: &Term, subs: &Substitution, out: &mut String, Ghost(fuel): Ghost<nat>)
    requires
        shown(term@, subs@, fuel) is Some,
    ensures
        final(out)@ == old(out)@ + shown(term@, subs@, fuel)->0,
    decreases fuel, term, 1nat,
{
    match term {
        Term::Integer(n) => {
            push_decimal(out, *n);
        },
        Term::Constant(c) => {
            out.append(c.as_str());
        },
        Term::Variable(v) => match subs.get(v.as_str()) {
            Some(target) => {
                write_shown(target, subs, out, Ghost((fuel - 1) as nat));
            },
            None => {
                out.append(v.as_str());
            },
        },
        Term::Compound(name, args) => {
            out.append(name.as_str());
            out.append("(");
            let ghost start = out@;
            let ghost views = crate::terms::view_terms(args@);
            let ghost texts = shown_each(views, subs@, fuel)->0;
            let mut i: usize = 0;
            assert(texts.subrange(0, 0) =~= Seq::empty());
            while i < args.len()
                invariant
                    *term matches Term::Compound(_, a) && a == *args,
                    i <= args.len(),
                    views == crate::terms::view_terms(args@),
                    shown_each(views, subs@, fuel) == Some(texts),
                    out@ == start + join_texts(texts.subrange(0, i as int), ", "@),
                decreases args.len() - i,
            {
                proof {
                    vstd::std_specs::vec::axiom_vec_index_decreases(*args, i as int);
                    assert(views[i as int] == args[i as int]@);
                }
                if i > 0 {
                    out.append(", ");
                }
                write_shown(&args[i], subs, out, Ghost(fuel));
                proof {
                    let grown = texts.subrange(0, i as int + 1);
                    assert(grown.drop_last() =~= texts.subrange(0, i as int));
                    assert(grown.last() == shown(args[i as int]@, subs@, fuel)->0);
                    if i == 0 {
                        assert(join_texts(texts.subrange(0, 0), ", "@) =~= Seq::empty());
                    }
                    assert(out@ =~= start + join_texts(grown, ", "@));
                }
                i += 1;
            }
            assert(texts.subrange(0, i as int) =~= texts);
            out.append(")");
            assert(out@ =~= old(out)@ + shown(term@, subs@, fuel)->0);
        },
        Term::List(_, _) => {
            out.append("[");
            write_rest(term, subs, out, Ghost(fuel));
            assert(out@ =~= old(out)@ + shown(term@, subs@, fuel)->0);
        },
        Term::EmptyList => {
            out.append("[]");
        },
    }
}

/// Appends the text of a list, from its first element to the closing
/// bracket, to `out`.
fn write_rest(list: &Term, subs: &Substitution, out: &mut String, Ghost(fuel): Ghost<nat>)
    requires
        shown_rest(list@, subs@, fuel) is Some,
    ensures
        final(out)@ == old(out)@ + shown_rest(list@, subs@, fuel)->0,
    decreases fuel, list, 0nat,
{
    match list {
        Term::List(head, tail) => {
            write_shown(head, subs, out, Ghost(fuel));
            match &**tail {
                Term::List(_, _) => {
                    out.append(", ");
                    write_rest(tail, subs, out, Ghost(fuel));
                },
                Term::EmptyList => {
                    out.append("]");
                },
                _ => {
                    out.append(" | ");
                    write_shown(tail, subs, out, Ghost(fuel));
                    out.append("]");
                },
            }
            assert(out@ =~= old(out)@ + shown_rest(list@, subs@, fuel)->0);
        },
        _ => {},
    }
}

/// The text of a term for display under the given bindings.
pub fn format_term(term: &Term, subs: &Substitution) -> (text: String)
    requires
        resolves(subs@, term@),
    ensures
        text@ == rendered(subs@, term@),
{
    proof {
        let enough = choose|fuel: nat| apply_fuel(subs@, term@, fuel) is Some;
        lemma_shown_follows_bindings(subs@, term@, enough);
    }
    let ghost fuel = choose|fuel: nat| shown(term@, subs@, fuel) is Some;
    let mut text = String::new();
    write_shown(term, subs, &mut text, Ghost(fuel));
    assert(text@ =~= rendered(subs@, term@));
    text
}

/// The line that reports a query's outcome, given the variable names of the
/// query and the solve time in milliseconds.
pub fn format_result(query_text: &str, names: &Vec<String>, solution: &Option<Substitution>, millis: u128) -> (line:
    String)
    requires
        reportable(view_texts(names@), bindings_of_ref(solution)),
    ensures
        line@ == result_text(query_text@, view_texts(names@), bindings_of_ref(solution), millis),
{
    let mut line = query_text.to_owned();
    match solution {
        Some(subs) => {
            let ghost all = view_texts(names@);
            let mut results: Vec<String> = Vec::new();
            let mut i: usize = 0;
            assert(all.subrange(0, 0) =~= Seq::empty());
            assert(view_texts(results@) =~= Seq::empty());
            while i < names.len()
                invariant
                    i <= names.len(),
                    all == view_texts(names@),
                    reportable(all, Some(subs@)),
                    view_texts(results@) == reports(all.subrange(0, i as int), subs@),
                decreases names.len() - i,
            {
                let var = &names[i];
                proof {
                    let grown = all.subrange(0, i as int + 1);
                    assert(grown.drop_last() =~= all.subrange(0, i as int));
                    assert(grown.last() == var@);
                    assert(all[i as int] == var@);
                }
                match subs.get(var.as_str()) {
                    Some(term) => {
                        let mut report = var.clone();
                        report.append(" = ");
                        let text = format_term(term, subs);
                        report.append(text.as_str());
                        let ghost before = view_texts(results@);
                        results.push(report);
                        assert(view_texts(results@) =~= before.push(report@));
                    },
                    None => {},
                }
                i += 1;
            }
            assert(all.subrange(0, i as int) =~= all);
            if results.len() == 0 {
                line.append(" => true");
            } else if millis > 10 {
                line.append(" => ");
                let joined = join(&results, ", ");
                line.append(joined.as_str());
                line.append("      |   Solve time: ");
                push_digits(&mut line, millis);
                line.append("ms");
            } else {
                line.append(" => ");
                let joined = join(&results, ", ");
                line.append(joined.as_str());
            }
        },
        None => {
            line.append(" => false");
        },
    }
    line
}

/// The bindings of an optional substitution.
pub open spec fn bindings_of_ref(solution: &Option<Substitution>) -> Option<Bindings> {
    match solution {
        Some(subs) => Some(subs@),
        None => None,
    }
}

/// Whether every chain of bindings in `term` ends, so that it can be
/// shown.
pub fn can_format(term: &Term, subs: &Substitution) -> (ok: bool)
    ensures
        ok == resolves(subs@, term@),
{
    subs.try_apply(term).is_some()
}

/// The line that reports a query's outcome, given the variable names of the
/// query and the solve time in milliseconds; `None` where the term of a
/// bound name cannot be shown.
pub fn try_format_result(
    query_text: &str,
    names: &Vec<String>,
    solution: &Option<Substitution>,
    millis: u128,
) -> (line: Option<String>)
    ensures
        match line {
            Some(text) => reportable(view_texts(names@), bindings_of_ref(solution)) && text@ == result_text(
                query_text@,
                view_texts(names@),
                bindings_of_ref(solution),
                millis,
            ),
            None => !reportable(view_texts(names@), bindings_of_ref(solution)),
        },
{
    match solution {
        Some(subs) => {
            let mut i: usize = 0;
            while i < names.len()
                invariant
                    i <= names.len(),
                    bindings_of_ref(solution) == Some(subs@),
                    forall|j: int|
                        0 <= j < i && subs@.contains_key(#[trigger] view_texts(names@)[j]) ==> resolves(
                            subs@,
                            subs@[view_texts(names@)[j]],
                        ),
                decreases names.len() - i,
            {
                assert(view_texts(names@)[i as int] == names[i as int]@);
                match subs.get(names[i].as_str()) {
                    Some(term) => {
                        if !can_format(term, subs) {
                            return None;
                        }
                    },
                    None => {},
                }
                i += 1;
            }
        },
        None => {},
    }
    Some(format_result(query_text, names, solution, millis))
}

/// The line that reports the outcome of the query `query_text`: its bound
/// variables with their terms, `true` where there are none, `false` without
/// a solution.
pub fn get_result(query_text: &str, solution: Option<Substitution>, duration: Duration) -> (line: String)
    requires
        reportable(query_variables(query_text@), bindings_of_ref(&solution)),
    ensures
        line@ == result_text(
            query_text@,
            query_variables(query_text@),
            bindings_of_ref(&solution),
            duration_millis(duration),
        ),
{
    let names = extract_query_vars(query_text);
    let millis = duration.as_millis();
    format_result(query_text, &names, &solution, millis)
}

/// The line that reports the outcome of the query `query_text`; `None`
/// where the term of one of its bound variables cannot be shown.
pub fn try_get_result(query_text: &str, solution: Option<Substitution>, duration: Duration) -> (line: Option<
    String,
>)
    ensures
        match line {
            Some(text) => reportable(query_variables(query_text@), bindings_of_ref(&solution)) && text@
                == result_text(
                query_text@,
                query_variables(query_text@),
                bindings_of_ref(&solution),
                duration_millis(duration),
            ),
            None => !reportable(query_variables(query_text@), bindings_of_ref(&solution)),
        },
{
    let names = extract_query_vars(query_text);
    let millis = duration.as_millis();
    if try_format_result(query_text, &names, &solution, millis).is_some() {
        Some(get_result(query_text, solution, duration))
    } else {
        None
    }
}

} // verus!
