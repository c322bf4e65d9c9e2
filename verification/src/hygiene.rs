//! Hygiene: where the identifiers come from that an expansion writes.
//!
//! Every identifier in what a template writes is accounted for in one of three ways.
//! It was given by the use of the macro, in what a variable of the pattern is bound
//! to. Or it is the fresh name of an identifier that the template binds. Or it stands
//! in the template itself, and the template does not bind it, or it stands there in a
//! quotation. So no identifier that a template binds is written under its own name
//! where it could meet an identifier of the use.

use vstd::prelude::*;
use vstd::seq_lib::lemma_seq_concat_contains_all_elements;
use crate::lexer::in_class;
use crate::lexer::lemma_scan;
use crate::lexer::spec_lex_identifier;
use crate::lexer::spec_non_peculiar;
use crate::lexer::CharClass;
use crate::lexer::Lexed;
use crate::lexer::TokenView;
use crate::parser::DatumView;
use crate::syntax_rules::binders_within;
use crate::syntax_rules::drives;
use crate::syntax_rules::extended_list;
use crate::syntax_rules::fresh_name;
use crate::syntax_rules::lemma_digits_differ;
use crate::syntax_rules::spec_digits;
use crate::syntax_rules::FRESH_MARK;
use crate::syntax_rules::is_atom;
use crate::syntax_rules::is_ellipsis;
use crate::syntax_rules::is_quotation;
use crate::syntax_rules::lemma_repeat;
use crate::syntax_rules::spec_binding_identifiers;
use crate::syntax_rules::spec_binding_identifiers_from;
use crate::syntax_rules::spec_datum_identifiers;
use crate::syntax_rules::spec_datum_identifiers_from;
use crate::syntax_rules::spec_instantiate;
use crate::syntax_rules::spec_instantiate_from;
use crate::syntax_rules::spec_instantiate_repeated;
use crate::syntax_rules::spec_instantiate_times;
use crate::syntax_rules::spec_lookup;
use crate::syntax_rules::spec_mentions;
use crate::syntax_rules::spec_mentions_from;
use crate::syntax_rules::spec_repeat;
use crate::syntax_rules::spec_select;
use crate::syntax_rules::spec_template;
use crate::syntax_rules::spec_templates;
use crate::syntax_rules::BindingView;
use crate::syntax_rules::BoundView;
use crate::syntax_rules::Repeat;
use crate::syntax_rules::TemplateView;

verus! {

/// Whether the template is well formed: what stands for itself in it is a boolean, a
/// number, a character or a string.
pub open spec fn holds_atoms_only(t: TemplateView) -> bool
    decreases t, 0int,
{
    match t {
        TemplateView::Identifier(_) => true,
        TemplateView::Datum(d) => is_atom(d),
        TemplateView::List(ts) => hold_atoms_only(ts, 0),
        TemplateView::Vector(ts) => hold_atoms_only(ts, 0),
        TemplateView::Pair(ts, tail) => hold_atoms_only(ts, 0) && holds_atoms_only(*tail),
        TemplateView::Ellipsis(inner) => holds_atoms_only(*inner),
    }
}

/// Whether the templates `ts[k..]` are well formed.
pub open spec fn hold_atoms_only(ts: Seq<TemplateView>, k: int) -> bool
    decreases ts, ts.len() - k,
{
    if 0 <= k < ts.len() {
        holds_atoms_only(ts[k]) && hold_atoms_only(ts, k + 1)
    } else {
        true
    }
}

/// A template as it is written is well formed.
pub proof fn law_written_templates_are_well_formed(d: DatumView)
    requires
        spec_template(d) is Some,
    ensures
        holds_atoms_only(spec_template(d)->Some_0),
    decreases d, 0int,
{
    match d {
        DatumView::List(ds) => {
            lemma_written_elements_are_well_formed(ds, 0);
        },
        DatumView::Vector(ds) => {
            lemma_written_elements_are_well_formed(ds, 0);
        },
        DatumView::DottedPair(ds, tail) => {
            lemma_written_elements_are_well_formed(ds, 0);
            law_written_templates_are_well_formed(*tail);
        },
        DatumView::Quote(inner) => {
            law_written_templates_are_well_formed(*inner);
            let t = spec_template(*inner)->Some_0;
            let ts = seq![TemplateView::Identifier("quote"@), t];
            assert(hold_atoms_only(ts, 0)) by {
                assert(ts.len() == 2);
                assert(ts[0] == TemplateView::Identifier("quote"@));
                assert(ts[1] == t);
                assert(holds_atoms_only(ts[0]));
                assert(holds_atoms_only(ts[1]));
                assert(hold_atoms_only(ts, 2));
                assert(hold_atoms_only(ts, 1));
            }
        },
        _ => {},
    }
}

/// The elements of a template as they are written are well formed.
pub proof fn lemma_written_elements_are_well_formed(ds: Seq<DatumView>, k: int)
    requires
        0 <= k,
        spec_templates(ds, k) is Some,
    ensures
        hold_atoms_only(spec_templates(ds, k)->Some_0, 0),
    decreases ds, ds.len() - k,
{
    if k < ds.len() {
        let repeats = k + 1 < ds.len() && is_ellipsis(ds[k + 1]);
        let next = if repeats {
            k + 2
        } else {
            k + 1
        };
        law_written_templates_are_well_formed(ds[k]);
        lemma_written_elements_are_well_formed(ds, next);
        let t = spec_template(ds[k])->Some_0;
        let first = if repeats {
            TemplateView::Ellipsis(Box::new(t))
        } else {
            t
        };
        let rest = spec_templates(ds, next)->Some_0;
        lemma_well_formed_shifted(seq![first], rest, 0);
        let all = seq![first] + rest;
        assert(all[0] == first);
        assert(holds_atoms_only(first));
        assert(hold_atoms_only(all, 1));
        assert(hold_atoms_only(all, 0));
    }
}

/// Templates behind one template are well formed as they are by themselves.
proof fn lemma_well_formed_shifted(a: Seq<TemplateView>, b: Seq<TemplateView>, k: int)
    requires
        0 <= k <= b.len(),
    ensures
        hold_atoms_only(a + b, a.len() + k) == hold_atoms_only(b, k),
    decreases b.len() - k,
{
    if k < b.len() {
        lemma_well_formed_shifted(a, b, k + 1);
        assert((a + b)[a.len() + k] == b[k]);
    }
}

/// A well-formed template in a row of well-formed templates.
proof fn lemma_well_formed_element(ts: Seq<TemplateView>, from: int, k: int)
    requires
        0 <= from <= k < ts.len(),
        hold_atoms_only(ts, from),
    ensures
        holds_atoms_only(ts[k]),
        hold_atoms_only(ts, k + 1),
    decreases k - from,
{
    if from < k {
        lemma_well_formed_element(ts, from + 1, k);
    }
}

/// The identifiers that stand in what the entries `env[k..]` bind to, in order.
pub open spec fn spec_env_identifiers(env: Seq<BoundView>, k: int) -> Seq<Seq<char>>
    decreases env.len() - k,
{
    if 0 <= k < env.len() {
        spec_binding_identifiers(env[k].binding) + spec_env_identifiers(env, k + 1)
    } else {
        Seq::empty()
    }
}

/// Whether the use gave the identifier `x`: it stands in what a variable of the
/// pattern is bound to.
pub open spec fn from_use(env: Seq<BoundView>, x: Seq<char>) -> bool {
    spec_env_identifiers(env, 0).contains(x)
}

/// Whether `x` is the fresh name of one of `binders` for the number `counter`.
pub open spec fn is_fresh(binders: Seq<Seq<char>>, counter: nat, x: Seq<char>) -> bool {
    exists|b: Seq<char>| binders.contains(b) && x == #[trigger] fresh_name(b, counter)
}

/// Whether the identifier `x` stands in a quotation in the template `t`.
pub open spec fn spec_quoted(t: TemplateView, x: Seq<char>) -> bool
    decreases t, 0int,
{
    match t {
        TemplateView::List(ts) => if is_quotation(ts) {
            spec_mentions_from(ts, x, 0)
        } else {
            spec_quoted_from(ts, x, 0)
        },
        TemplateView::Vector(ts) => spec_quoted_from(ts, x, 0),
        TemplateView::Pair(ts, tail) => spec_quoted_from(ts, x, 0) || spec_quoted(*tail, x),
        TemplateView::Ellipsis(inner) => spec_quoted(*inner, x),
        _ => false,
    }
}

/// Whether the identifier `x` stands in a quotation in one of the templates `ts[k..]`.
pub open spec fn spec_quoted_from(ts: Seq<TemplateView>, x: Seq<char>, k: int) -> bool
    decreases ts, ts.len() - k,
{
    if 0 <= k < ts.len() {
        spec_quoted(ts[k], x) || spec_quoted_from(ts, x, k + 1)
    } else {
        false
    }
}

/// Whether the template writes `x` as it stands: `x` stands in the template, and the
/// template does not bind it or has it in a quotation.
pub open spec fn stands_free(mentioned: bool, quoted: bool, binders: Seq<Seq<char>>, x: Seq<char>) -> bool {
    mentioned && (!binders.contains(x) || quoted)
}

/// Whether the identifier `x` in what the template `t` writes is accounted for: the
/// use gave it, or it is the fresh name of an identifier that the template binds, or
/// the template writes it as it stands.
pub open spec fn accounted_for(
    x: Seq<char>,
    t: TemplateView,
    env: Seq<BoundView>,
    binders: Seq<Seq<char>>,
    counter: nat,
) -> bool {
    ||| from_use(env, x)
    ||| is_fresh(binders, counter, x)
    ||| stands_free(spec_mentions(t, x), spec_quoted(t, x), binders, x)
}

/// As `accounted_for`, for the templates `ts[k..]`.
pub open spec fn accounted_for_from(
    x: Seq<char>,
    ts: Seq<TemplateView>,
    k: int,
    env: Seq<BoundView>,
    binders: Seq<Seq<char>>,
    counter: nat,
) -> bool {
    ||| from_use(env, x)
    ||| is_fresh(binders, counter, x)
    ||| stands_free(spec_mentions_from(ts, x, k), spec_quoted_from(ts, x, k), binders, x)
}

/// An identifier in what an entry from `from` on binds to is among the identifiers of
/// the entries from `from` on.
proof fn lemma_entry_identifiers(env: Seq<BoundView>, from: int, k: int, x: Seq<char>)
    requires
        0 <= from <= k < env.len(),
        spec_binding_identifiers(env[k].binding).contains(x),
    ensures
        spec_env_identifiers(env, from).contains(x),
    decreases k - from,
{
    broadcast use lemma_seq_concat_contains_all_elements;

    if from < k {
        lemma_entry_identifiers(env, from + 1, k, x);
    }
}

/// An identifier among those of the entries from `from` on stands in what one of
/// them binds to.
proof fn lemma_identifiers_entry(env: Seq<BoundView>, from: int, x: Seq<char>) -> (k: int)
    requires
        0 <= from,
        spec_env_identifiers(env, from).contains(x),
    ensures
        from <= k < env.len(),
        spec_binding_identifiers(env[k].binding).contains(x),
    decreases env.len() - from,
{
    broadcast use lemma_seq_concat_contains_all_elements;

    if from < env.len() {
        if spec_binding_identifiers(env[from].binding).contains(x) {
            from
        } else {
            lemma_identifiers_entry(env, from + 1, x)
        }
    } else {
        assert(spec_env_identifiers(env, from) =~= Seq::<Seq<char>>::empty());
        from
    }
}

/// What a variable is looked up as is what an entry binds it to.
proof fn lemma_lookup_entry(env: Seq<BoundView>, name: Seq<char>, from: int) -> (k: int)
    requires
        0 <= from,
        spec_lookup(env, name, from) is Some,
    ensures
        from <= k < env.len(),
        spec_lookup(env, name, from) == Some(env[k].binding),
    decreases env.len() - from,
{
    if env[from].name == name {
        from
    } else {
        lemma_lookup_entry(env, name, from + 1)
    }
}

/// An identifier in one of the bindings `bs[from..]` is among their identifiers.
proof fn lemma_binding_identifiers(bs: Seq<BindingView>, from: int, j: int, x: Seq<char>)
    requires
        0 <= from <= j < bs.len(),
        spec_binding_identifiers(bs[j]).contains(x),
    ensures
        spec_binding_identifiers_from(bs, from).contains(x),
    decreases j - from,
{
    broadcast use lemma_seq_concat_contains_all_elements;

    if from < j {
        lemma_binding_identifiers(bs, from + 1, j, x);
    }
}

/// What the use gave for one of the times that a template is written, the use gave.
proof fn lemma_select_from_use(t: TemplateView, env: Seq<BoundView>, j: int, x: Seq<char>)
    requires
        forall|i: int|
            0 <= i < env.len() && drives(t, #[trigger] env[i]) ==> 0 <= j
                < env[i].binding->Many_0.len(),
        from_use(spec_select(t, env, j), x),
    ensures
        from_use(env, x),
{
    let chosen = spec_select(t, env, j);
    let k = lemma_identifiers_entry(chosen, 0, x);
    if drives(t, env[k]) {
        let bs = env[k].binding->Many_0;
        lemma_binding_identifiers(bs, 0, j, x);
    }
    lemma_entry_identifiers(env, 0, k, x);
}

/// The identifiers of data in a row are those of the first of them and those of the
/// others.
proof fn lemma_identifiers_of_both(a: Seq<DatumView>, b: Seq<DatumView>, k: int)
    requires
        0 <= k <= a.len(),
    ensures
        spec_datum_identifiers_from(a + b, k) == spec_datum_identifiers_from(a, k)
            + spec_datum_identifiers_from(b, 0),
    decreases a.len() + b.len() - k,
{
    let all = a + b;
    if k < a.len() {
        lemma_identifiers_of_both(a, b, k + 1);
        assert(all[k] == a[k]);
        assert(spec_datum_identifiers_from(all, k) =~= spec_datum_identifiers_from(a, k)
            + spec_datum_identifiers_from(b, 0));
    } else {
        lemma_identifiers_shifted(a, b, 0);
        assert(spec_datum_identifiers_from(a, k) =~= Seq::<Seq<char>>::empty());
        assert(spec_datum_identifiers_from(all, k) =~= spec_datum_identifiers_from(a, k)
            + spec_datum_identifiers_from(b, 0));
    }
}

/// The identifiers of the data behind the first of data in a row are those of the
/// others.
proof fn lemma_identifiers_shifted(a: Seq<DatumView>, b: Seq<DatumView>, k: int)
    requires
        0 <= k <= b.len(),
    ensures
        spec_datum_identifiers_from(a + b, a.len() + k) == spec_datum_identifiers_from(b, k),
    decreases b.len() - k,
{
    let all = a + b;
    if k < b.len() {
        lemma_identifiers_shifted(a, b, k + 1);
        assert(all[a.len() + k] == b[k]);
    }
}

/// An identifier in a list that goes on with a tail stands in the elements before
/// the tail or in the tail.
proof fn lemma_extended_list(ds: Seq<DatumView>, tail: DatumView, x: Seq<char>)
    requires
        spec_datum_identifiers(extended_list(ds, tail)).contains(x),
    ensures
        spec_datum_identifiers_from(ds, 0).contains(x) || spec_datum_identifiers(tail).contains(
            x,
        ),
{
    broadcast use lemma_seq_concat_contains_all_elements;

    match tail {
        DatumView::List(more) => {
            lemma_identifiers_of_both(ds, more, 0);
        },
        DatumView::DottedPair(more, last) => {
            lemma_identifiers_of_both(ds, more, 0);
        },
        _ => {
            if ds.len() == 0 {
            } else {
            }
        },
    }
}

/// An identifier that stands in one of the templates `ts[from..]` stands in them, and
/// so for its standing in a quotation.
proof fn lemma_stands_in(ts: Seq<TemplateView>, from: int, k: int, x: Seq<char>)
    requires
        0 <= from <= k < ts.len(),
    ensures
        spec_mentions(ts[k], x) ==> spec_mentions_from(ts, x, from),
        spec_quoted(ts[k], x) ==> spec_quoted_from(ts, x, from),
        spec_mentions_from(ts, x, k + 1) ==> spec_mentions_from(ts, x, from),
        spec_quoted_from(ts, x, k + 1) ==> spec_quoted_from(ts, x, from),
    decreases k - from,
{
    if from < k {
        lemma_stands_in(ts, from + 1, k, x);
    }
}

/// Hygiene: every identifier in what a template writes was given by the use, or is
/// the fresh name of an identifier that the template binds, or is written by the
/// template as it stands, bound by nothing in it or quoted.
pub proof fn law_written_identifiers_are_accounted_for(
    t: TemplateView,
    env: Seq<BoundView>,
    binders: Seq<Seq<char>>,
    counter: nat,
    x: Seq<char>,
)
    requires
        holds_atoms_only(t),
        spec_instantiate(t, env, binders, counter) is Some,
        spec_datum_identifiers(spec_instantiate(t, env, binders, counter)->Some_0).contains(x),
    ensures
        accounted_for(x, t, env, binders, counter),
    decreases t, 1int,
{
    broadcast use lemma_seq_concat_contains_all_elements;

    let d = spec_instantiate(t, env, binders, counter)->Some_0;
    match t {
        TemplateView::Identifier(name) => {
            match spec_lookup(env, name, 0) {
                Some(b) => {
                    let k = lemma_lookup_entry(env, name, 0);
                    lemma_entry_identifiers(env, 0, k, x);
                },
                None => {
                    assert(spec_datum_identifiers(d)[0] == x);
                    if binders.contains(name) {
                        assert(x == fresh_name(name, counter));
                    }
                },
            }
        },
        TemplateView::Datum(literal) => {},
        TemplateView::List(ts) => {
            let within = binders_within(ts, binders);
            lemma_written_from(ts, env, within, counter, 0, x);
            if is_quotation(ts) {
                assert(!within.contains(x));
                assert(!is_fresh(within, counter, x));
            }
        },
        TemplateView::Vector(ts) => {
            lemma_written_from(ts, env, binders, counter, 0, x);
        },
        TemplateView::Pair(ts, tail) => {
            let ds = spec_instantiate_from(ts, env, binders, counter, 0)->Some_0;
            let last = spec_instantiate(*tail, env, binders, counter)->Some_0;
            lemma_extended_list(ds, last, x);
            if spec_datum_identifiers_from(ds, 0).contains(x) {
                lemma_written_from(ts, env, binders, counter, 0, x);
            } else {
                law_written_identifiers_are_accounted_for(*tail, env, binders, counter, x);
            }
        },
        TemplateView::Ellipsis(_) => {},
    }
}

/// As `law_written_identifiers_are_accounted_for`, for the elements that templates
/// in a row write.
proof fn lemma_written_from(
    ts: Seq<TemplateView>,
    env: Seq<BoundView>,
    binders: Seq<Seq<char>>,
    counter: nat,
    k: int,
    x: Seq<char>,
)
    requires
        0 <= k,
        hold_atoms_only(ts, k),
        spec_instantiate_from(ts, env, binders, counter, k) is Some,
        spec_datum_identifiers_from(
            spec_instantiate_from(ts, env, binders, counter, k)->Some_0,
            0,
        ).contains(x),
    ensures
        accounted_for_from(x, ts, k, env, binders, counter),
    decreases ts, ts.len() - k,
{
    broadcast use lemma_seq_concat_contains_all_elements;

    if k < ts.len() {
        let rest = spec_instantiate_from(ts, env, binders, counter, k + 1)->Some_0;
        let here = match ts[k] {
            TemplateView::Ellipsis(inner) => spec_instantiate_repeated(
                *inner,
                env,
                binders,
                counter,
            )->Some_0,
            _ => seq![spec_instantiate(ts[k], env, binders, counter)->Some_0],
        };
        lemma_identifiers_of_both(here, rest, 0);
        lemma_stands_in(ts, k, k, x);
        lemma_well_formed_element(ts, k, k);
        if spec_datum_identifiers_from(here, 0).contains(x) {
            match ts[k] {
                TemplateView::Ellipsis(inner) => {
                    lemma_written_repeated(*inner, env, binders, counter, x);
                },
                _ => {
                    let d = spec_instantiate(ts[k], env, binders, counter)->Some_0;
                    assert(spec_datum_identifiers_from(here, 0) =~= spec_datum_identifiers(d)) by {
                        assert(spec_datum_identifiers_from(here, 1) =~= Seq::<Seq<char>>::empty());
                    }
                    law_written_identifiers_are_accounted_for(ts[k], env, binders, counter, x);
                },
            }
        } else {
            lemma_written_from(ts, env, binders, counter, k + 1, x);
        }
    } else {
        assert(spec_datum_identifiers_from(Seq::<DatumView>::empty(), 0) =~= Seq::<
            Seq<char>,
        >::empty());
    }
}

/// As `law_written_identifiers_are_accounted_for`, for what a template before an
/// ellipsis writes.
proof fn lemma_written_repeated(
    t: TemplateView,
    env: Seq<BoundView>,
    binders: Seq<Seq<char>>,
    counter: nat,
    x: Seq<char>,
)
    requires
        holds_atoms_only(t),
        spec_instantiate_repeated(t, env, binders, counter) is Some,
        spec_datum_identifiers_from(
            spec_instantiate_repeated(t, env, binders, counter)->Some_0,
            0,
        ).contains(x),
    ensures
        accounted_for(x, t, env, binders, counter),
    decreases t, 3int,
{
    let n = spec_repeat(t, env, 0, Repeat::Unknown)->Times_0;
    lemma_written_times(t, env, binders, counter, 0, n, x);
}

/// As `law_written_identifiers_are_accounted_for`, for what a template writes the
/// `j`-th to the `n`-th time.
proof fn lemma_written_times(
    t: TemplateView,
    env: Seq<BoundView>,
    binders: Seq<Seq<char>>,
    counter: nat,
    j: nat,
    n: nat,
    x: Seq<char>,
)
    requires
        holds_atoms_only(t),
        spec_repeat(t, env, 0, Repeat::Unknown) == Repeat::Times(n),
        spec_instantiate_times(t, env, binders, counter, j, n) is Some,
        spec_datum_identifiers_from(
            spec_instantiate_times(t, env, binders, counter, j, n)->Some_0,
            0,
        ).contains(x),
    ensures
        accounted_for(x, t, env, binders, counter),
    decreases t, 2int, n - j,
{
    broadcast use lemma_seq_concat_contains_all_elements;

    if j < n {
        let chosen = spec_select(t, env, j as int);
        let d = spec_instantiate(t, chosen, binders, counter)->Some_0;
        let rest = spec_instantiate_times(t, env, binders, counter, j + 1, n)->Some_0;
        lemma_identifiers_of_both(seq![d], rest, 0);
        assert(spec_datum_identifiers_from(seq![d], 0) =~= spec_datum_identifiers(d)) by {
            assert(spec_datum_identifiers_from(seq![d], 1) =~= Seq::<Seq<char>>::empty());
        }
        if spec_datum_identifiers(d).contains(x) {
            law_written_identifiers_are_accounted_for(t, chosen, binders, counter, x);
            if from_use(chosen, x) {
                assert forall|i: int| 0 <= i < env.len() && drives(t, #[trigger] env[i]) implies 0
                    <= j < env[i].binding->Many_0.len() by {
                    lemma_repeat(t, env, 0, Repeat::Unknown, i);
                }
                lemma_select_from_use(t, env, j as int, x);
            }
        } else {
            lemma_written_times(t, env, binders, counter, j + 1, n, x);
        }
    } else {
        assert(spec_datum_identifiers_from(Seq::<DatumView>::empty(), 0) =~= Seq::<
            Seq<char>,
        >::empty());
    }
}

/// Hygiene of bound names, for a whole template: an identifier of source text that
/// the template binds stands in what the template writes only where the use gave it
/// or the template quotes it. Under its own name it is bound by nothing that the
/// template writes.
pub proof fn law_binders_are_not_written(
    t: TemplateView,
    env: Seq<BoundView>,
    binders: Seq<Seq<char>>,
    counter: nat,
    name: Seq<char>,
)
    requires
        holds_atoms_only(t),
        binders.contains(name),
        !name.contains(FRESH_MARK),
        !from_use(env, name),
        !spec_quoted(t, name),
        spec_instantiate(t, env, binders, counter) is Some,
    ensures
        !spec_datum_identifiers(spec_instantiate(t, env, binders, counter)->Some_0).contains(
            name,
        ),
{
    let d = spec_instantiate(t, env, binders, counter)->Some_0;
    if spec_datum_identifiers(d).contains(name) {
        law_written_identifiers_are_accounted_for(t, env, binders, counter, name);
        assert forall|b: Seq<char>| binders.contains(b) implies name != #[trigger] fresh_name(
            b,
            counter,
        ) by {
            law_fresh_name_is_marked(b, counter, name);
        }
    }
}

/// Hygiene of bound names: an identifier that a template binds is written by two
/// expansions under two names, which differ from each other and from the identifier
/// itself, and so from a variable of that name at the places where the macro is used.
pub proof fn law_bound_names_do_not_collide(
    name: Seq<char>,
    binders: Seq<Seq<char>>,
    first_env: Seq<BoundView>,
    second_env: Seq<BoundView>,
    first: nat,
    second: nat,
)
    requires
        binders.contains(name),
        spec_lookup(first_env, name, 0) is None,
        spec_lookup(second_env, name, 0) is None,
        first != second,
    ensures
        spec_instantiate(TemplateView::Identifier(name), first_env, binders, first) == Some(
            DatumView::Identifier(fresh_name(name, first)),
        ),
        spec_instantiate(TemplateView::Identifier(name), second_env, binders, second) == Some(
            DatumView::Identifier(fresh_name(name, second)),
        ),
        fresh_name(name, first) != name,
        fresh_name(name, second) != name,
        fresh_name(name, first) != fresh_name(name, second),
{
    assert(fresh_name(name, first).len() > name.len());
    assert(fresh_name(name, second).len() > name.len());
    law_fresh_names_differ(name, first, second);
}

/// An identifier that the template binds, and that is no variable of the pattern, is
/// written under its fresh name for the expansion.
pub proof fn law_binders_are_written_fresh(
    name: Seq<char>,
    env: Seq<BoundView>,
    binders: Seq<Seq<char>>,
    counter: nat,
)
    requires
        binders.contains(name),
        spec_lookup(env, name, 0) is None,
    ensures
        spec_instantiate(TemplateView::Identifier(name), env, binders, counter) == Some(
            DatumView::Identifier(fresh_name(name, counter)),
        ),
{
}

/// A fresh name is the name of no identifier that is free of the mark, whatever its
/// base and its number: it is the name of no identifier of source text.
pub proof fn law_fresh_name_is_marked(base: Seq<char>, counter: nat, other: Seq<char>)
    requires
        !other.contains(FRESH_MARK),
    ensures
        fresh_name(base, counter) != other,
{
    let fresh = fresh_name(base, counter);
    assert(fresh[base.len() as int] == FRESH_MARK);
    assert(fresh.contains(FRESH_MARK));
}

/// Two expansions with different numbers write the same identifier under different
/// fresh names.
pub proof fn law_fresh_names_differ(base: Seq<char>, first: nat, second: nat)
    requires
        first != second,
    ensures
        fresh_name(base, first) != fresh_name(base, second),
{
    let a = fresh_name(base, first);
    let b = fresh_name(base, second);
    if a == b {
        let n = base.len() + 1;
        assert(a.subrange(n as int, a.len() as int) =~= spec_digits(first));
        assert(b.subrange(n as int, b.len() as int) =~= spec_digits(second));
        lemma_digits_differ(first, second);
    }
}

/// One expansion writes different identifiers under different fresh names.
pub proof fn law_fresh_names_keep_apart(first: Seq<char>, second: Seq<char>, counter: nat)
    requires
        first != second,
    ensures
        fresh_name(first, counter) != fresh_name(second, counter),
{
    let a = fresh_name(first, counter);
    let b = fresh_name(second, counter);
    let digits = spec_digits(counter);
    if a == b {
        assert(a.len() == first.len() + 1 + digits.len());
        assert(b.len() == second.len() + 1 + digits.len());
        assert(first.len() == second.len());
        assert(a.subrange(0, first.len() as int) =~= first);
        assert(b.subrange(0, second.len() as int) =~= second);
    }
}

/// No identifier that the tokenizer gives holds the mark of fresh names.
pub proof fn law_source_identifiers_are_unmarked(s: Seq<char>, i: int)
    requires
        0 <= i <= s.len(),
        spec_lex_identifier(s, i) is Token,
    ensures
        spec_lex_identifier(s, i) matches Lexed::Token { token: TokenView::Identifier(text), .. }
            && !text.contains(FRESH_MARK),
{
    let end = spec_lex_identifier(s, i)->end;
    let text = s.subrange(i, end);
    if i < s.len() {
        lemma_scan(s, i + 1, CharClass::Subsequent);
    }
    assert forall|k: int| 0 <= k < text.len() implies text[k] != FRESH_MARK by {
        assert(text[k] == s[i + k]);
        if k > 0 && spec_non_peculiar(s, i) is Some {
            assert(in_class(CharClass::Subsequent, s[i + k]));
        }
    }
}

} // verus!
