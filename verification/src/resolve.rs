//! One resolution pass: turning variable specifications and the
//! outcomes of the DNS lookups into a resolved context.
//!
//! The lookups themselves are I/O performed by the caller, one
//! concurrent unit per host variable and one nested unit per resolved
//! address; what reaches this module is each unit's outcome as plain
//! values.  Everything from there on — reverse-result selection,
//! fallback to the raw address, ordering, and assembly of the context —
//! is computed and proved here.

use vstd::prelude::*;
use vstd::multiset::Multiset;
use vstd::relations::sorted_by;
use vstd::seq_lib::lemma_sorted_unique;
use crate::context::ResolvedContext;
use crate::text::{before_first, before_char, lex_le, lex_leq, lemma_lex_total_ordering, str_le};
use crate::value::{ResolvedValue, ValueModel};
use crate::vars::{ReverseMode, VariableSpec};

verus! {

/// The outcome of the nested unit of work for one resolved address: the
/// address itself (as text), and the name its reverse lookup returned,
/// if it returned one.  `None` covers both a failed reverse lookup and
/// one that returned no name.
#[derive(Debug)]
pub struct AddrLookup {
    /// The resolved address, as text.
    pub addr: String,
    /// The first name the reverse lookup returned, if any.
    pub reverse: Option<String>,
}

/// The outcome of one host variable's forward lookup: `None` when the
/// lookup failed, otherwise the per-address outcomes.
pub type HostLookup = Option<Vec<AddrLookup>>;

/// The string stored for one resolved address: with reverse enrichment
/// off, the address itself; in `Fqdn` mode, the returned name verbatim;
/// in `Hostname` mode, the returned name up to its first `.`; and in
/// both modes the address itself when no name came back.
pub open spec fn spec_selected(mode: ReverseMode, a: AddrLookup) -> Seq<char> {
    match mode {
        ReverseMode::Off => a.addr@,
        ReverseMode::Fqdn => match a.reverse {
            Option::Some(n) => n@,
            Option::None => a.addr@,
        },
        ReverseMode::Hostname => match a.reverse {
            Option::Some(n) => before_first(n@, '.'),
            Option::None => a.addr@,
        },
    }
}

/// The strings stored for a list of per-address outcomes, before
/// sorting.
pub open spec fn selected_values(mode: ReverseMode, l: Seq<AddrLookup>) -> Seq<Seq<char>> {
    l.map_values(|a: AddrLookup| spec_selected(mode, a))
}

/// Selects the string stored for one resolved address.
pub fn select_reverse(mode: ReverseMode, a: &AddrLookup) -> (r: String)
    ensures
        r@ == spec_selected(mode, *a),
{
    match mode {
        ReverseMode::Off => a.addr.clone(),
        ReverseMode::Fqdn => match &a.reverse {
            Option::Some(n) => n.clone(),
            Option::None => a.addr.clone(),
        },
        ReverseMode::Hostname => match &a.reverse {
            Option::Some(n) => before_char(n.as_str(), '.'),
            Option::None => a.addr.clone(),
        },
    }
}

/// Sorts strings into plain lexicographic order.
pub fn sort_strings(v: Vec<String>) -> (r: Vec<String>)
    ensures
        r@.map_values(|t: String| t@) == v@.map_values(|t: String| t@).sort_by(lex_leq()),
{
    broadcast use vstd::seq_lib::to_multiset_insert, vstd::seq_lib::to_multiset_remove;

    let ghost w0 = v@.map_values(|t: String| t@);
    let mut rest = v;
    let mut out: Vec<String> = Vec::new();
    proof {
        assert(out@.map_values(|t: String| t@) =~= Seq::<Seq<char>>::empty());
        vstd::seq_lib::lemma_multiset_commutative(
            out@.map_values(|t: String| t@),
            rest@.map_values(|t: String| t@),
        );
        assert(Seq::<Seq<char>>::empty() + rest@.map_values(|t: String| t@) =~= w0);
    }
    while rest.len() > 0
        invariant
            sorted_by(out@.map_values(|t: String| t@), lex_leq()),
            out@.map_values(|t: String| t@).to_multiset().add(
                rest@.map_values(|t: String| t@).to_multiset(),
            ) == w0.to_multiset(),
        decreases rest.len(),
    {
        let ghost outw = out@.map_values(|t: String| t@);
        let ghost restw = rest@.map_values(|t: String| t@);
        let x = rest.remove(0);
        proof {
            assert(rest@.map_values(|t: String| t@) =~= restw.remove(0));
            assert(restw[0] == x@);
        }
        let m = out.len();
        let mut p: usize = 0;
        while p < m && str_le(out[p].as_str(), x.as_str())
            invariant
                p <= m,
                m == out@.len(),
                out@.map_values(|t: String| t@) == outw,
                forall|k: int| 0 <= k < p ==> lex_le(outw[k], x@),
            decreases m - p,
        {
            assert(outw[p as int] == out@[p as int]@);
            p = p + 1;
        }
        proof {
            assert forall|k: int| p <= k < m implies lex_le(x@, outw[k]) by {
                assert(outw[p as int] == out@[p as int]@);
                assert(!lex_le(outw[p as int], x@));
                crate::text::lemma_lex_le_connected(outw[p as int], x@);
                if k > p {
                    assert(lex_leq()(outw[p as int], outw[k]));
                    crate::text::lemma_lex_le_transitive(x@, outw[p as int], outw[k]);
                }
            }
        }
        out.insert(p, x);
        proof {
            let outw2 = out@.map_values(|t: String| t@);
            assert(outw2 =~= outw.insert(p as int, x@));
            assert forall|i: int, j: int|
                0 <= i < j < outw2.len() implies lex_leq()(outw2[i], outw2[j]) by {
                if j < p {
                    assert(outw2[i] == outw[i] && outw2[j] == outw[j]);
                } else if i > p {
                    assert(outw2[i] == outw[i - 1] && outw2[j] == outw[j - 1]);
                } else if i < p && j == p {
                    assert(outw2[i] == outw[i] && outw2[j] == x@);
                } else if i == p {
                    assert(outw2[i] == x@ && outw2[j] == outw[j - 1]);
                } else {
                    assert(i < p && j > p);
                    assert(outw2[i] == outw[i] && outw2[j] == outw[j - 1]);
                    assert(lex_le(outw[i], x@) && lex_le(x@, outw[j - 1]));
                    crate::text::lemma_lex_le_transitive(outw[i], x@, outw[j - 1]);
                }
            }
            assert(sorted_by(outw2, lex_leq()));
            vstd::seq_lib::to_multiset_insert(outw, p as int, x@);
            assert(outw2.to_multiset() == outw.to_multiset().insert(x@));
            vstd::seq_lib::to_multiset_remove(restw, 0);
            assert(restw.remove(0).to_multiset() == restw.to_multiset().remove(restw[0]));
            assert(rest@.map_values(|t: String| t@).to_multiset() == restw.to_multiset().remove(
                x@,
            ));
            broadcast use vstd::multiset::group_multiset_axioms;

            assert(restw.to_multiset().contains(x@)) by {
                restw.to_multiset_ensures();
                assert(restw.contains(restw[0]));
            }
            assert(outw2.to_multiset().add(rest@.map_values(|t: String| t@).to_multiset())
                =~= outw.to_multiset().add(restw.to_multiset()));
        }
    }
    proof {
        broadcast use vstd::multiset::group_multiset_axioms;

        let restw_final = rest@.map_values(|t: String| t@);
        assert(restw_final =~= Seq::<Seq<char>>::empty());
        restw_final.to_multiset_ensures();
        assert(restw_final.to_multiset() =~= Multiset::<Seq<char>>::empty()) by {
            assert(forall|a: Seq<char>| !restw_final.contains(a));
        }
        assert(out@.map_values(|t: String| t@).to_multiset() =~= w0.to_multiset());
        lemma_lex_total_ordering();
        w0.lemma_sort_by_ensures(lex_leq());
        lemma_sorted_unique(out@.map_values(|t: String| t@), w0.sort_by(lex_leq()), lex_leq());
    }
    out
}

/// The value a host variable gets from its lookup outcome: `Null` when
/// the forward lookup failed, otherwise the list of selected strings in
/// plain lexicographic order.
pub open spec fn spec_host_value(mode: ReverseMode, outcome: HostLookup) -> ValueModel {
    match outcome {
        Option::Some(l) => ValueModel::List(selected_values(mode, l@).sort_by(lex_leq())),
        Option::None => ValueModel::Null,
    }
}

/// Builds a host variable's value from its lookup outcome.
pub fn host_value(mode: ReverseMode, outcome: &HostLookup) -> (r: ResolvedValue)
    ensures
        r@ == spec_host_value(mode, *outcome),
{
    match outcome {
        Option::Some(l) => {
            let n = l.len();
            let mut names: Vec<String> = Vec::new();
            let mut i: usize = 0;
            proof {
                assert(names@.map_values(|t: String| t@) =~= selected_values(mode, l@.take(0)));
            }
            while i < n
                invariant
                    i <= n,
                    n == l@.len(),
                    names@.map_values(|t: String| t@) == selected_values(mode, l@.take(i as int)),
                decreases n - i,
            {
                let s = select_reverse(mode, &l[i]);
                let ghost prev = names@;
                names.push(s);
                proof {
                    assert(names@ == prev.push(s));
                    assert(l@.take(i + 1).len() == i + 1);
                    assert(l@.take(i as int).len() == i as int);
                    assert(prev.map_values(|t: String| t@).len() == prev.len());
                    assert(selected_values(mode, l@.take(i as int)).len() == i as int);
                    assert(prev.len() == i as int);
                    assert(names@.len() == i + 1);
                    assert forall|j: int| #![trigger l@[j]] 0 <= j < names@.len() implies names@
                        .map_values(|t: String| t@)[j] == selected_values(mode, l@.take(i + 1))[j]
                        by {
                        assert(l@.take(i + 1)[j] == l@[j]);
                        assert(selected_values(mode, l@.take(i + 1))[j] == spec_selected(
                            mode,
                            l@[j],
                        ));
                        if j < i {
                            assert(names@[j] == prev[j]);
                            assert(prev.map_values(|t: String| t@)[j] == selected_values(
                                mode,
                                l@.take(i as int),
                            )[j]);
                            assert(l@.take(i as int)[j] == l@[j]);
                        } else {
                            assert(names@[j] == s);
                        }
                    }
                    assert(names@.map_values(|t: String| t@) =~= selected_values(
                        mode,
                        l@.take(i + 1),
                    ));
                }
                i = i + 1;
            }
            proof {
                assert(l@.take(n as int) =~= l@);
            }
            let sorted = sort_strings(names);
            ResolvedValue::List(sorted)
        },
        Option::None => ResolvedValue::Null,
    }
}

/// How many host variables a specification sequence holds.
pub open spec fn host_count(specs: Seq<VariableSpec>) -> nat
    decreases specs.len(),
{
    if specs.len() == 0 {
        0
    } else {
        host_count(specs.drop_last()) + (if specs.last() is Host {
            1nat
        } else {
            0nat
        })
    }
}

pub proof fn lemma_host_count_take_step(specs: Seq<VariableSpec>, j: int)
    requires
        0 <= j < specs.len(),
    ensures
        host_count(specs.take(j + 1)) == host_count(specs.take(j)) + (if specs[j] is Host {
            1nat
        } else {
            0nat
        }),
{
    assert(specs.take(j + 1).drop_last() =~= specs.take(j));
    assert(specs.take(j + 1).last() == specs[j]);
}

pub proof fn lemma_host_count_take_bound(specs: Seq<VariableSpec>, j: int)
    requires
        0 <= j <= specs.len(),
    ensures
        host_count(specs.take(j)) <= host_count(specs),
    decreases specs.len() - j,
{
    if j == specs.len() {
        assert(specs.take(j) =~= specs);
    } else {
        lemma_host_count_take_step(specs, j);
        lemma_host_count_take_bound(specs, j + 1);
    }
}

/// The context one resolution pass denotes: constants and literal lists
/// resolve to themselves, and the `k`-th host variable to the value of
/// the `k`-th lookup outcome, later bindings of a repeated name winning.
pub open spec fn spec_pass(specs: Seq<VariableSpec>, outs: Seq<HostLookup>) -> Map<
    Seq<char>,
    ValueModel,
>
    decreases specs.len(),
{
    if specs.len() == 0 {
        Map::empty()
    } else {
        let m = spec_pass(specs.drop_last(), outs);
        match specs.last() {
            VariableSpec::Host(h) => m.insert(
                h.alias@,
                spec_host_value(h.reverse, outs[host_count(specs.drop_last()) as int]),
            ),
            VariableSpec::Constant { name, value } => m.insert(name@, ValueModel::Str(value@)),
            VariableSpec::Literal { name, values } => m.insert(
                name@,
                ValueModel::List(values@.map_values(|t: String| t@)),
            ),
        }
    }
}

fn clone_string_vec(v: &Vec<String>) -> (r: Vec<String>)
    ensures
        r@ == v@,
{
    let n = v.len();
    let mut r: Vec<String> = Vec::new();
    let mut i: usize = 0;
    while i < n
        invariant
            i <= n,
            n == v@.len(),
            r@ == v@.take(i as int),
        decreases n - i,
    {
        r.push(v[i].clone());
        proof {
            assert(r@ =~= v@.take(i + 1));
        }
        i = i + 1;
    }
    proof {
        assert(v@.take(n as int) =~= v@);
    }
    r
}

/// One full resolution pass over the given specifications, with the
/// `k`-th host variable taking the `k`-th lookup outcome.  Constants
/// and literal lists are resolved deterministically; a failed lookup
/// degrades its one variable to `Null` and touches nothing else.
pub fn resolve_pass(specs: &Vec<VariableSpec>, lookups: &Vec<HostLookup>) -> (r: ResolvedContext)
    requires
        lookups@.len() == host_count(specs@),
    ensures
        r.wf(),
        r@ == spec_pass(specs@, lookups@),
{
    let n = specs.len();
    let total = lookups.len();
    let mut ctx = ResolvedContext::new();
    let mut k: usize = 0;
    let mut i: usize = 0;
    proof {
        assert(specs@.take(0) =~= Seq::<VariableSpec>::empty());
    }
    while i < n
        invariant
            i <= n,
            n == specs@.len(),
            total == lookups@.len(),
            lookups@.len() == host_count(specs@),
            k == host_count(specs@.take(i as int)),
            ctx.wf(),
            ctx@ == spec_pass(specs@.take(i as int), lookups@),
        decreases n - i,
    {
        proof {
            lemma_host_count_take_step(specs@, i as int);
            lemma_host_count_take_bound(specs@, i + 1);
            assert(specs@.take(i + 1).drop_last() =~= specs@.take(i as int));
            assert(specs@.take(i + 1).last() == specs@[i as int]);
        }
        match &specs[i] {
            VariableSpec::Host(h) => {
                let v = host_value(h.reverse, &lookups[k]);
                ctx.insert(h.alias.clone(), v);
                k = k + 1;
            },
            VariableSpec::Constant { name, value } => {
                ctx.insert(name.clone(), ResolvedValue::Str(value.clone()));
            },
            VariableSpec::Literal { name, values } => {
                ctx.insert(name.clone(), ResolvedValue::List(clone_string_vec(values)));
            },
        }
        i = i + 1;
    }
    proof {
        assert(specs@.take(n as int) =~= specs@);
    }
    ctx
}

/// The context of a synthesized pass that performed no lookups at all:
/// every host variable is `Null`, constants and literal lists resolve as
/// always.
pub open spec fn spec_empty_pass(specs: Seq<VariableSpec>) -> Map<Seq<char>, ValueModel>
    decreases specs.len(),
{
    if specs.len() == 0 {
        Map::empty()
    } else {
        let m = spec_empty_pass(specs.drop_last());
        match specs.last() {
            VariableSpec::Host(h) => m.insert(h.alias@, ValueModel::Null),
            VariableSpec::Constant { name, value } => m.insert(name@, ValueModel::Str(value@)),
            VariableSpec::Literal { name, values } => m.insert(
                name@,
                ValueModel::List(values@.map_values(|t: String| t@)),
            ),
        }
    }
}

/// Builds the all-`Null` context of a fast start: no DNS work, every
/// host variable `Null`.
pub fn empty_pass(specs: &Vec<VariableSpec>) -> (r: ResolvedContext)
    ensures
        r.wf(),
        r@ == spec_empty_pass(specs@),
{
    let n = specs.len();
    let mut ctx = ResolvedContext::new();
    let mut i: usize = 0;
    proof {
        assert(specs@.take(0) =~= Seq::<VariableSpec>::empty());
    }
    while i < n
        invariant
            i <= n,
            n == specs@.len(),
            ctx.wf(),
            ctx@ == spec_empty_pass(specs@.take(i as int)),
        decreases n - i,
    {
        proof {
            assert(specs@.take(i + 1).drop_last() =~= specs@.take(i as int));
            assert(specs@.take(i + 1).last() == specs@[i as int]);
        }
        match &specs[i] {
            VariableSpec::Host(h) => {
                ctx.insert(h.alias.clone(), ResolvedValue::Null);
            },
            VariableSpec::Constant { name, value } => {
                ctx.insert(name.clone(), ResolvedValue::Str(value.clone()));
            },
            VariableSpec::Literal { name, values } => {
                ctx.insert(name.clone(), ResolvedValue::List(clone_string_vec(values)));
            },
        }
        i = i + 1;
    }
    proof {
        assert(specs@.take(n as int) =~= specs@);
    }
    ctx
}

/// A pass all of whose lookups failed denotes the same context as the
/// synthesized fast-start pass: failure everywhere and no lookup at all
/// are indistinguishable in the rendered output.
pub proof fn lemma_all_failed_is_empty_pass(specs: Seq<VariableSpec>, outs: Seq<HostLookup>)
    requires
        host_count(specs) <= outs.len(),
        forall|j: int| 0 <= j < outs.len() ==> outs[j] is None,
    ensures
        spec_pass(specs, outs) == spec_empty_pass(specs),
    decreases specs.len(),
{
    if specs.len() > 0 {
        lemma_all_failed_is_empty_pass(specs.drop_last(), outs);
        if specs.last() is Host {
            assert(host_count(specs.drop_last()) < host_count(specs));
            assert(outs[host_count(specs.drop_last()) as int] is None);
        }
    }
}

/// `spec_pass` reads only the first `host_count(specs)` lookup
/// outcomes.
pub proof fn lemma_pass_reads_prefix(
    specs: Seq<VariableSpec>,
    outs1: Seq<HostLookup>,
    outs2: Seq<HostLookup>,
)
    requires
        forall|j: int| 0 <= j < host_count(specs) ==> outs1[j] == outs2[j],
    ensures
        spec_pass(specs, outs1) == spec_pass(specs, outs2),
    decreases specs.len(),
{
    if specs.len() > 0 {
        assert(host_count(specs.drop_last()) <= host_count(specs));
        lemma_pass_reads_prefix(specs.drop_last(), outs1, outs2);
        if specs.last() is Host {
            assert(host_count(specs.drop_last()) < host_count(specs));
            assert(outs1[host_count(specs.drop_last()) as int] == outs2[host_count(
                specs.drop_last(),
            ) as int]);
        }
    }
}

/// The alias of the `t`-th host variable of a specification sequence.
pub open spec fn host_alias(specs: Seq<VariableSpec>, t: int) -> Seq<char>
    decreases specs.len(),
{
    if specs.len() == 0 {
        Seq::empty()
    } else if specs.last() is Host && host_count(specs.drop_last()) == t {
        (specs.last()->Host_0).alias@
    } else {
        host_alias(specs.drop_last(), t)
    }
}

/// The name one specification binds.
pub open spec fn spec_name(s: VariableSpec) -> Seq<char> {
    match s {
        VariableSpec::Host(h) => h.alias@,
        VariableSpec::Constant { name, value } => name@,
        VariableSpec::Literal { name, values } => name@,
    }
}

/// No two specifications bind the same name.
pub open spec fn distinct_names(specs: Seq<VariableSpec>) -> bool {
    forall|i: int, j: int|
        0 <= i < j < specs.len() ==> spec_name(#[trigger] specs[i]) != spec_name(
            #[trigger] specs[j],
        )
}

/// The reverse mode of the `t`-th host variable of a specification
/// sequence.
pub open spec fn host_mode(specs: Seq<VariableSpec>, t: int) -> ReverseMode
    decreases specs.len(),
{
    if specs.len() == 0 {
        ReverseMode::Off
    } else if specs.last() is Host && host_count(specs.drop_last()) == t {
        (specs.last()->Host_0).reverse
    } else {
        host_mode(specs.drop_last(), t)
    }
}

proof fn lemma_host_alias_is_some_name(specs: Seq<VariableSpec>, t: int)
    requires
        0 <= t < host_count(specs),
    ensures
        exists|i: int|
            0 <= i < specs.len() && spec_name(#[trigger] specs[i]) == host_alias(specs, t),
    decreases specs.len(),
{
    let head = specs.drop_last();
    if specs.last() is Host && host_count(head) == t {
        assert(spec_name(specs[specs.len() - 1]) == host_alias(specs, t));
    } else {
        assert(0 <= t < host_count(head));
        lemma_host_alias_is_some_name(head, t);
        let w = choose|i: int|
            0 <= i < head.len() && spec_name(#[trigger] head[i]) == host_alias(head, t);
        assert(specs[w] == head[w]);
        assert(spec_name(specs[w]) == host_alias(specs, t));
    }
}

/// With pairwise distinct names, each host variable's binding in a pass
/// is exactly the value of its own lookup outcome: in particular, a
/// failed lookup makes that one variable `Null`.
pub proof fn lemma_host_binding(specs: Seq<VariableSpec>, outs: Seq<HostLookup>, t: int)
    requires
        distinct_names(specs),
        0 <= t < host_count(specs),
        host_count(specs) <= outs.len(),
    ensures
        spec_pass(specs, outs).dom().contains(host_alias(specs, t)),
        spec_pass(specs, outs)[host_alias(specs, t)] == spec_host_value(
            host_mode(specs, t),
            outs[t],
        ),
        outs[t] is None ==> spec_pass(specs, outs)[host_alias(specs, t)] == ValueModel::Null,
    decreases specs.len(),
{
    let head = specs.drop_last();
    if specs.last() is Host && host_count(head) == t {
        assert(spec_pass(specs, outs)[host_alias(specs, t)] == spec_host_value(
            host_mode(specs, t),
            outs[t],
        ));
    } else {
        assert(distinct_names(head)) by {
            assert(forall|i: int| 0 <= i < head.len() ==> head[i] == specs[i]);
        }
        assert(0 <= t < host_count(head));
        lemma_host_binding(head, outs, t);
        assert(host_alias(specs, t) == host_alias(head, t));
        assert(host_mode(specs, t) == host_mode(head, t));
        lemma_host_alias_is_some_name(head, t);
        let w = choose|i: int|
            0 <= i < head.len() && spec_name(#[trigger] head[i]) == host_alias(head, t);
        assert(specs[w] == head[w]);
        assert(spec_name(specs[specs.len() - 1]) != spec_name(specs[w]));
        assert(spec_name(specs.last()) != host_alias(specs, t));
    }
}

/// Failure isolation: two passes whose lookup outcomes differ only for
/// the `t`-th host variable denote contexts that agree at every name
/// other than that variable's alias.  In particular one variable's
/// failed lookup affects no other variable's value.
pub proof fn lemma_lookup_isolated(
    specs: Seq<VariableSpec>,
    outs1: Seq<HostLookup>,
    outs2: Seq<HostLookup>,
    t: int,
)
    requires
        host_count(specs) <= outs1.len(),
        outs1.len() == outs2.len(),
        forall|j: int| 0 <= j < outs1.len() && j != t ==> outs1[j] == outs2[j],
    ensures
        forall|k: Seq<char>|
            k != host_alias(specs, t) ==> (spec_pass(specs, outs1).dom().contains(k) <==> spec_pass(
                specs,
                outs2,
            ).dom().contains(k)),
        forall|k: Seq<char>|
            k != host_alias(specs, t) && spec_pass(specs, outs1).dom().contains(k) ==> spec_pass(
                specs,
                outs1,
            )[k] == spec_pass(specs, outs2)[k],
    decreases specs.len(),
{
    if specs.len() > 0 {
        let head = specs.drop_last();
        assert(host_count(head) <= host_count(specs));
        let m1 = spec_pass(head, outs1);
        let m2 = spec_pass(head, outs2);
        match specs.last() {
            VariableSpec::Host(h) => {
                let hc = host_count(head) as int;
                if hc == t {
                    lemma_pass_reads_prefix(head, outs1, outs2);
                    assert(host_alias(specs, t) == h.alias@);
                } else {
                    lemma_lookup_isolated(head, outs1, outs2, t);
                    assert(host_count(head) < host_count(specs));
                    assert(outs1[hc] == outs2[hc]);
                }
            },
            VariableSpec::Constant { name, value } => {
                lemma_lookup_isolated(head, outs1, outs2, t);
            },
            VariableSpec::Literal { name, values } => {
                lemma_lookup_isolated(head, outs1, outs2, t);
            },
        }
    }
}

} // verus!
