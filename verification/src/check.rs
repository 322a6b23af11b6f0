//! The identifier validator.
//!
//! Before any code generation, every bare identifier used by the template
//! must resolve: a bare-identifier attribute under the `on` namespace must
//! name a declared event handler, any other bare-identifier attribute and
//! every bare-identifier interpolation must name a declared state field.
//! Validation fails fast: the first unresolved identifier aborts the whole
//! compilation with a diagnostic naming the table it was expected in.
//! Loop bodies are out of the walk's scope: their identifiers may be
//! bound by the loop pattern, and the loop compiler resolves them against
//! the body scope's props before falling back to state.

use vstd::prelude::*;
use crate::diag::Diag;
use crate::html::Attribute;
use crate::html::AttrExprType;
use crate::html::Condition;
use crate::html::Element;
use crate::html::ExprElement;
use crate::state_block::events_contain;
use crate::state_block::states_contain;
use crate::state_block::LocalDetails;

verus! {

/// One unresolved bare identifier: its text, its location, and whether it
/// was expected among the event handlers (`true`) or the state fields
/// (`false`).
pub ghost struct BadIdent {
    pub name: Seq<char>,
    pub pos: int,
    pub in_events: bool,
}

/// The first unresolved identifier among an attribute list.
pub open spec fn first_bad_in_attrs(attrs: Seq<Attribute>, details: LocalDetails) -> Option<
    BadIdent,
>
    decreases attrs,
{
    if attrs.len() == 0 {
        None
    } else {
        let head = bad_in_attr(attrs[0], details);
        if head is Some {
            head
        } else {
            first_bad_in_attrs(attrs.skip(1), details)
        }
    }
}

/// The unresolved identifier of one attribute, if any: only
/// bare-identifier values are checked.
pub open spec fn bad_in_attr(a: Attribute, details: LocalDetails) -> Option<BadIdent> {
    match a.expr {
        AttrExprType::Ident(n) => {
            if a.namespace@ == "on"@ {
                if events_contain(details.events_closures@, n.text@) {
                    None
                } else {
                    Some(BadIdent { name: n.text@, pos: n.pos as int, in_events: true })
                }
            } else {
                if states_contain(details.states@, n.text@) {
                    None
                } else {
                    Some(BadIdent { name: n.text@, pos: n.pos as int, in_events: false })
                }
            }
        },
        _ => None,
    }
}

/// The first unresolved identifier in one element, walking attributes
/// before children, in source order.
pub open spec fn first_bad_in_el(e: Element, details: LocalDetails) -> Option<BadIdent>
    decreases e,
{
    match e {
        Element::Classic(c) => {
            let in_attrs = first_bad_in_attrs(c.attrs@, details);
            if in_attrs is Some {
                in_attrs
            } else {
                first_bad_in_els(c.children@, details)
            }
        },
        Element::ExprElement(x) => match x {
            ExprElement::Ident(n) => {
                if states_contain(details.states@, n.text@) {
                    None
                } else {
                    Some(BadIdent { name: n.text@, pos: n.pos as int, in_events: false })
                }
            },
            ExprElement::For { .. } => None,
            ExprElement::If { conditions } => first_bad_in_conds(conditions@, details),
            _ => None,
        },
        _ => None,
    }
}

/// The first unresolved identifier in a list of elements.
pub open spec fn first_bad_in_els(els: Seq<Element>, details: LocalDetails) -> Option<BadIdent>
    decreases els,
{
    if els.len() == 0 {
        None
    } else {
        let head = first_bad_in_el(els[0], details);
        if head is Some {
            head
        } else {
            first_bad_in_els(els.skip(1), details)
        }
    }
}

/// The first unresolved identifier in an `if` chain's branches.
pub open spec fn first_bad_in_conds(conds: Seq<Condition>, details: LocalDetails) -> Option<
    BadIdent,
>
    decreases conds,
{
    if conds.len() == 0 {
        None
    } else {
        let head = first_bad_in_els(conds[0].children@, details);
        if head is Some {
            head
        } else {
            first_bad_in_conds(conds.skip(1), details)
        }
    }
}

/// The diagnostic that reports an unresolved identifier.
pub open spec fn bad_ident_diag(b: BadIdent, d: Diag) -> bool {
    &&& d.primary.pos == b.pos
    &&& d.secondary is None
    &&& if b.in_events {
        d.primary.msg@ == "event's callback not declared in state's block."@
    } else {
        d.primary.msg@ == "Variable is not declared in state's block."@
    }
}

proof fn lemma_first_bad_in_attrs_snoc(attrs: Seq<Attribute>, a: Attribute, details: LocalDetails)
    ensures
        first_bad_in_attrs(attrs.push(a), details) == if first_bad_in_attrs(attrs, details)
            is Some {
            first_bad_in_attrs(attrs, details)
        } else {
            bad_in_attr(a, details)
        },
    decreases attrs,
{
    if attrs.len() == 0 {
        assert(attrs.push(a).skip(1) =~= Seq::<Attribute>::empty());
        assert(attrs.push(a)[0] == a);
        assert(first_bad_in_attrs(Seq::<Attribute>::empty(), details) is None);
    } else {
        lemma_first_bad_in_attrs_snoc(attrs.skip(1), a, details);
        assert(attrs.push(a).skip(1) =~= attrs.skip(1).push(a));
        assert(attrs.push(a)[0] == attrs[0]);
    }
}

proof fn lemma_first_bad_in_els_snoc(els: Seq<Element>, e: Element, details: LocalDetails)
    ensures
        first_bad_in_els(els.push(e), details) == if first_bad_in_els(els, details) is Some {
            first_bad_in_els(els, details)
        } else {
            first_bad_in_el(e, details)
        },
    decreases els,
{
    if els.len() == 0 {
        assert(els.push(e).skip(1) =~= Seq::<Element>::empty());
        assert(els.push(e)[0] == e);
        assert(first_bad_in_els(Seq::<Element>::empty(), details) is None);
    } else {
        lemma_first_bad_in_els_snoc(els.skip(1), e, details);
        assert(els.push(e).skip(1) =~= els.skip(1).push(e));
        assert(els.push(e)[0] == els[0]);
    }
}

proof fn lemma_first_bad_in_conds_snoc(conds: Seq<Condition>, c: Condition, details: LocalDetails)
    ensures
        first_bad_in_conds(conds.push(c), details) == if first_bad_in_conds(conds, details)
            is Some {
            first_bad_in_conds(conds, details)
        } else {
            first_bad_in_els(c.children@, details)
        },
    decreases conds,
{
    if conds.len() == 0 {
        assert(conds.push(c).skip(1) =~= Seq::<Condition>::empty());
        assert(conds.push(c)[0] == c);
        assert(first_bad_in_conds(Seq::<Condition>::empty(), details) is None);
    } else {
        lemma_first_bad_in_conds_snoc(conds.skip(1), c, details);
        assert(conds.push(c).skip(1) =~= conds.skip(1).push(c));
        assert(conds.push(c)[0] == conds[0]);
    }
}

/// Checks every bare-identifier attribute of one element against the
/// declaration tables.
pub fn check_ident_expr_attrs(
    _element: &Element,
    attrs: &Vec<Attribute>,
    details: &LocalDetails,
) -> (r: Result<(), Diag>)
    ensures
        r is Ok <==> first_bad_in_attrs(attrs@, *details) is None,
        r matches Err(d) ==> first_bad_in_attrs(attrs@, *details) matches Some(b) && bad_ident_diag(
            b,
            d,
        ),
{
    let mut i: usize = 0;
    while i < attrs.len()
        invariant
            i <= attrs@.len(),
            first_bad_in_attrs(attrs@.take(i as int), *details) is None,
        decreases attrs@.len() - i,
    {
        proof {
            assert(attrs@.take(i + 1) =~= attrs@.take(i as int).push(attrs@[i as int]));
            lemma_first_bad_in_attrs_snoc(attrs@.take(i as int), attrs@[i as int], *details);
        }
        match &attrs[i].expr {
            AttrExprType::Ident(n) => {
                if crate::strutil::str_eq(attrs[i].namespace.as_str(), "on") {
                    match details.events_contains_ident(n) {
                        Ok(_) => {},
                        Err(d) => {
                            proof {
                                lemma_first_bad_in_attrs_prefix(attrs@, i + 1, *details);
                            }
                            return Err(d);
                        },
                    }
                } else {
                    match details.states_contains_ident(n) {
                        Ok(_) => {},
                        Err(d) => {
                            proof {
                                lemma_first_bad_in_attrs_prefix(attrs@, i + 1, *details);
                            }
                            return Err(d);
                        },
                    }
                }
            },
            _ => {},
        }
        i = i + 1;
    }
    proof {
        assert(attrs@.take(attrs@.len() as int) =~= attrs@);
    }
    Ok(())
}

proof fn lemma_first_bad_in_attrs_prefix(attrs: Seq<Attribute>, k: int, details: LocalDetails)
    requires
        0 <= k <= attrs.len(),
        first_bad_in_attrs(attrs.take(k), details) is Some,
    ensures
        first_bad_in_attrs(attrs, details) == first_bad_in_attrs(attrs.take(k), details),
    decreases k,
{
    assert(k > 0);
    assert(attrs.take(k)[0] == attrs[0]);
    if bad_in_attr(attrs[0], details) is Some {
    } else {
        assert(attrs.take(k).skip(1) =~= attrs.skip(1).take(k - 1));
        lemma_first_bad_in_attrs_prefix(attrs.skip(1), k - 1, details);
    }
}

proof fn lemma_first_bad_in_els_prefix(els: Seq<Element>, k: int, details: LocalDetails)
    requires
        0 <= k <= els.len(),
        first_bad_in_els(els.take(k), details) is Some,
    ensures
        first_bad_in_els(els, details) == first_bad_in_els(els.take(k), details),
    decreases k,
{
    assert(k > 0);
    assert(els.take(k)[0] == els[0]);
    if first_bad_in_el(els[0], details) is Some {
    } else {
        assert(els.take(k).skip(1) =~= els.skip(1).take(k - 1));
        lemma_first_bad_in_els_prefix(els.skip(1), k - 1, details);
    }
}

proof fn lemma_first_bad_in_conds_prefix(conds: Seq<Condition>, k: int, details: LocalDetails)
    requires
        0 <= k <= conds.len(),
        first_bad_in_conds(conds.take(k), details) is Some,
    ensures
        first_bad_in_conds(conds, details) == first_bad_in_conds(conds.take(k), details),
    decreases k,
{
    assert(k > 0);
    assert(conds.take(k)[0] == conds[0]);
    if first_bad_in_els(conds[0].children@, details) is Some {
    } else {
        assert(conds.take(k).skip(1) =~= conds.skip(1).take(k - 1));
        lemma_first_bad_in_conds_prefix(conds.skip(1), k - 1, details);
    }
}

/// Walks the element tree and validates every bare identifier against the
/// declaration tables: accepts exactly the templates whose bare
/// identifiers all resolve, and rejects the first unresolved one with its
/// location and the table it was expected in.
pub fn check_ident_expr(elements: &Vec<Element>, details: &LocalDetails) -> (r: Result<(), Diag>)
    ensures
        r is Ok <==> first_bad_in_els(elements@, *details) is None,
        r matches Err(d) ==> first_bad_in_els(elements@, *details) matches Some(b)
            && bad_ident_diag(b, d),
    decreases elements,
{
    let mut i: usize = 0;
    while i < elements.len()
        invariant
            i <= elements@.len(),
            first_bad_in_els(elements@.take(i as int), *details) is None,
        decreases elements@.len() - i,
    {
        proof {
            assert(elements@.take(i + 1) =~= elements@.take(i as int).push(elements@[i as int]));
            lemma_first_bad_in_els_snoc(elements@.take(i as int), elements@[i as int], *details);
        }
        match check_one_element(&elements[i], details) {
            Ok(_) => {},
            Err(d) => {
                proof {
                    lemma_first_bad_in_els_prefix(elements@, i + 1, *details);
                }
                return Err(d);
            },
        }
        i = i + 1;
    }
    proof {
        assert(elements@.take(elements@.len() as int) =~= elements@);
    }
    Ok(())
}

/// Validates one element: its attributes, then its children.
fn check_one_element(element: &Element, details: &LocalDetails) -> (r: Result<(), Diag>)
    ensures
        r is Ok <==> first_bad_in_el(*element, *details) is None,
        r matches Err(d) ==> first_bad_in_el(*element, *details) matches Some(b) && bad_ident_diag(
            b,
            d,
        ),
    decreases element,
{
    match element {
        Element::Classic(c) => {
            match check_ident_expr_attrs(element, &c.attrs, details) {
                Ok(_) => check_ident_expr(&c.children, details),
                Err(d) => Err(d),
            }
        },
        Element::ExprElement(x) => match x {
            ExprElement::Ident(n) => details.states_contains_ident(n),
            ExprElement::For { .. } => Ok(()),
            ExprElement::If { conditions } => check_conditions(conditions, details),
            _ => Ok(()),
        },
        _ => Ok(()),
    }
}

/// Validates the children of every branch of an `if` chain.
fn check_conditions(conditions: &Vec<Condition>, details: &LocalDetails) -> (r: Result<(), Diag>)
    ensures
        r is Ok <==> first_bad_in_conds(conditions@, *details) is None,
        r matches Err(d) ==> first_bad_in_conds(conditions@, *details) matches Some(b)
            && bad_ident_diag(b, d),
    decreases conditions,
{
    let mut i: usize = 0;
    while i < conditions.len()
        invariant
            i <= conditions@.len(),
            first_bad_in_conds(conditions@.take(i as int), *details) is None,
        decreases conditions@.len() - i,
    {
        proof {
            assert(conditions@.take(i + 1) =~= conditions@.take(i as int).push(
                conditions@[i as int],
            ));
            lemma_first_bad_in_conds_snoc(
                conditions@.take(i as int),
                conditions@[i as int],
                *details,
            );
        }
        match check_ident_expr(&conditions[i].children, details) {
            Ok(_) => {},
            Err(d) => {
                proof {
                    lemma_first_bad_in_conds_prefix(conditions@, i + 1, *details);
                }
                return Err(d);
            },
        }
        i = i + 1;
    }
    proof {
        assert(conditions@.take(conditions@.len() as int) =~= conditions@);
    }
    Ok(())
}

} // verus!
