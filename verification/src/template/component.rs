//! Assembly of one compiled component: the shared state's construction
//! pieces, the event callbacks in slot order, and the root compilation
//! unit, plus the whole-pipeline driver.

use vstd::prelude::*;
use crate::check::check_ident_expr;
use crate::diag::Diag;
use crate::expr::local_to_text;
use crate::html::Element;
use crate::html::Root;
use crate::state_block::extract_locals;
use crate::state_block::LocalDetails;
use crate::strutil::chars_of;
use crate::strutil::chars_to_string;
use crate::strutil::push_char;
use crate::template::closure::ClosureTemplate;
use crate::template::nodes::collect_loop_snippets;
use crate::template::closure::handler_text;
use crate::template::nodes::els_emitted;
use crate::template::nodes::Instr;
use crate::template::nodes::els_unimpl;
use crate::template::nodes::scope_start;
use crate::template::nodes::sink_snapshot;
use crate::template::nodes::ElSink;
use crate::template::nodes::Target;
use crate::template::nodes::Dom;
use crate::template::nodes::State;
use crate::thir::PatBinding;
use crate::tokens::tokenize;
use vstd::string::StringExecFns;

verus! {

/// The marker prefixed to generated lines so rendering keeps them; it is
/// stripped from the final output.
pub open spec fn item_marker() -> Seq<char> {
    seq!['/', '/', 'I', 'T', 'E', 'M', ' ']
}

/// The text with every generator marker removed, scanning left to right.
pub open spec fn spec_clean(s: Seq<char>) -> Seq<char>
    decreases s.len(),
{
    if s.len() == 0 {
        Seq::empty()
    } else if s.len() >= 7 && s.take(7) == item_marker() {
        spec_clean(s.skip(7))
    } else {
        seq![s[0]] + spec_clean(s.skip(1))
    }
}

/// Strips the generator markers from rendered output.
pub fn clean_up_generated(generated: String) -> (r: String)
    ensures
        r@ == spec_clean(generated@),
{
    let chars = chars_of(generated.as_str());
    let n = chars.len();
    let mut out: Vec<char> = Vec::new();
    let mut i: usize = 0;
    proof {
        assert(generated@.skip(0) =~= generated@);
        assert(out@ + spec_clean(generated@) =~= spec_clean(generated@));
    }
    while i < n
        invariant
            n == chars@.len(),
            chars@ == generated@,
            i <= n,
            spec_clean(generated@) == out@ + spec_clean(generated@.skip(i as int)),
        decreases n - i,
    {
        let ghost rest = generated@.skip(i as int);
        let window = n - i >= 7 && chars[i] == '/' && chars[i + 1] == '/' && chars[i + 2] == 'I'
            && chars[i + 3] == 'T' && chars[i + 4] == 'E' && chars[i + 5] == 'M' && chars[i + 6]
            == ' ';
        if window {
            proof {
                assert(rest.len() >= 7);
                assert forall|k: int| 0 <= k < 7 implies rest.take(7)[k] == item_marker()[k] by {
                    assert(rest[k] == generated@[i + k]);
                }
                assert(rest.take(7) =~= item_marker());
                assert(rest.skip(7) =~= generated@.skip(i + 7));
                assert(spec_clean(rest) == spec_clean(generated@.skip(i + 7)));
            }
            i = i + 7;
        } else {
            proof {
                if rest.len() >= 7 {
                    if rest.take(7) == item_marker() {
                        assert(rest.take(7)[0] == generated@[i as int]);
                        assert(rest.take(7)[1] == generated@[i + 1]);
                        assert(rest.take(7)[2] == generated@[i + 2]);
                        assert(rest.take(7)[3] == generated@[i + 3]);
                        assert(rest.take(7)[4] == generated@[i + 4]);
                        assert(rest.take(7)[5] == generated@[i + 5]);
                        assert(rest.take(7)[6] == generated@[i + 6]);
                        assert(false);
                    }
                }
                assert(rest[0] == generated@[i as int]);
                assert(rest.skip(1) =~= generated@.skip(i + 1));
                assert(spec_clean(rest) == seq![generated@[i as int]] + spec_clean(
                    generated@.skip(i + 1),
                ));
                assert(out@.push(generated@[i as int]) + spec_clean(generated@.skip(i + 1)) =~= out@
                    + spec_clean(rest));
            }
            out.push(chars[i]);
            i = i + 1;
        }
    }
    proof {
        assert(generated@.skip(n as int) =~= Seq::<char>::empty());
        assert(spec_clean(Seq::<char>::empty()) == Seq::<char>::empty());
        assert(out@ + Seq::<char>::empty() =~= out@);
    }
    chars_to_string(&out)
}

/// One field declaration of the generated state struct: `ident : ty ,`.
pub fn gen_field_type(ident: &str, ty: &str) -> (r: String)
    ensures
        r@ == ident@ + " : "@ + ty@ + " ,"@,
{
    let mut out = String::from_str(ident);
    out.append(" : ");
    out.append(ty);
    out.append(" ,");
    proof {
        assert(out@ =~= ident@ + " : "@ + ty@ + " ,"@);
    }
    out
}

/// One shorthand field value of the generated state constructor:
/// `ident ,`.
pub fn gen_field_value_shorthand(ident: &str) -> (r: String)
    ensures
        r@ == ident@ + " ,"@,
{
    let mut out = String::from_str(ident);
    out.append(" ,");
    proof {
        assert(out@ =~= ident@ + " ,"@);
    }
    out
}

/// Each registered callback holds the rendered handler of the
/// declaration at its slot: its text is `handler_text` of that
/// declaration's name over the statement list at the same position.
pub open spec fn handler_texts_match(
    cbs: Seq<(String, String)>,
    evs: Seq<crate::state_block::EventClosure>,
    texts: Seq<Seq<String>>,
) -> bool {
    forall|j: int|
        0 <= j < evs.len() && j < texts.len() && j < cbs.len() ==> (#[trigger] cbs[j]).1@
            == handler_text(evs[j].ident.text@, texts[j])
}

/// One compiled component: its shared state's construction pieces and the
/// root compilation unit with its nested scopes.
#[derive(Debug)]
pub struct Component {
    pub dom: Dom,
    pub state: State,
}

impl Component {
    /// Builds the component: renders the state block and its fields,
    /// rewrites each event handler through the shared-state accessors
    /// (registering the callbacks in declaration order, so `on:` slots
    /// match), re-checks the identifiers, and compiles the element tree
    /// into the root scope.
    pub fn new(
        local_details: &mut LocalDetails,
        elements: &Vec<Element>,
        lookups: &Vec<(String, Vec<PatBinding>)>,
    ) -> (r: Result<Component, Diag>)
        ensures
            r matches Ok(c) ==> {
                &&& c.dom.wf()
                &&& !els_unimpl(elements@)
                &&& c.dom.append_nodes
                &&& c.dom.update@.len() > 0
                &&& c.dom.update@.last() is ClearUpdatedIdents
                &&& forall|j: int|
                    0 <= j < c.dom.update@.len() - 1 ==> !((#[trigger] c.dom.update@[j])
                        is ClearUpdatedIdents)
                &&& c.state.callbacks@.len() >= old(local_details).events_closures@.len()
                &&& forall|j: int|
                    0 <= j < old(local_details).events_closures@.len()
                        ==> (#[trigger] c.state.callbacks@[j]).0@ == old(
                        local_details,
                    ).events_closures@[j].ident.text@
                &&& exists|texts: Seq<Seq<String>>|
                    texts.len() == old(local_details).events_closures@.len()
                        && #[trigger] handler_texts_match(
                        c.state.callbacks@,
                        old(local_details).events_closures@,
                        texts,
                    )
                &&& exists|bend: ElSink|
                    {
                        &&& #[trigger] sink_snapshot(bend)
                        &&& els_emitted(
                            elements@,
                            Target::Root,
                            *final(local_details),
                            Seq::<(String, String)>::empty(),
                            scope_start(
                                true,
                                c.state.callbacks@.take(
                                    old(local_details).events_closures@.len() as int,
                                ),
                            ),
                            bend,
                        )
                        &&& c.dom.init@ == bend.init
                        &&& c.dom.mount@ == bend.mount
                        &&& c.dom.mount_mounted@ == bend.once
                        &&& c.dom.update@ == bend.update.push(Instr::ClearUpdatedIdents)
                        &&& c.dom.drop@ == bend.drop
                        &&& c.state.callbacks@ == bend.cbs
                        &&& c.dom.tag_count@ == bend.counts
                    }
            },
    {
        let mut init_block = String::new();
        let mut fields_type: Vec<String> = Vec::new();
        let mut fields_value: Vec<String> = Vec::new();
        let mut i: usize = 0;
        while i < local_details.states.len()
            decreases local_details.states@.len() - i,
        {
            if i > 0 {
                push_char(&mut init_block, '\n');
            }
            init_block.append(local_to_text(&local_details.states[i].local).as_str());
            fields_type.push(
                gen_field_type(
                    local_details.states[i].ident.text.as_str(),
                    local_details.states[i].ty.as_str(),
                ),
            );
            fields_value.push(
                gen_field_value_shorthand(local_details.states[i].ident.text.as_str()),
            );
            i = i + 1;
        }
        let mut ident_modifier = local_details.get_ident_modifier("s");
        let ghost mut stmts_list: Seq<Seq<String>> = Seq::empty();
        let mut callbacks: Vec<(String, String)> = Vec::new();
        let mut rewritten_events: Vec<crate::state_block::EventClosure> = Vec::new();
        let mut k: usize = 0;
        while k < local_details.events_closures.len()
            invariant
                k <= local_details.events_closures@.len(),
                local_details.events_closures@ == old(local_details).events_closures@,
                callbacks@.len() == k,
                forall|j: int| 0 <= j < k ==> (#[trigger] callbacks@[j]).0@ == old(
                    local_details,
                ).events_closures@[j].ident.text@,
                stmts_list.len() == k,
                forall|j: int|
                    0 <= j < k ==> (#[trigger] callbacks@[j]).1@ == handler_text(
                        old(local_details).events_closures@[j].ident.text@,
                        stmts_list[j],
                    ),
            decreases local_details.events_closures@.len() - k,
        {
            let source = &local_details.events_closures[k];
            let mut event = crate::state_block::EventClosure {
                ident: crate::expr::clone_name(&source.ident),
                closure: crate::expr::clone_expr(&source.closure),
                local: crate::expr::clone_local(&source.local),
            };
            let ghost ev_ident = event.ident.text@;
            let ghost cbs_pre = callbacks@;
            let (cb_name, cb_text) = ClosureTemplate::string_from_event_closure(
                &mut event,
                &mut ident_modifier,
            );
            let ghost ct = cb_text@;
            callbacks.push((cb_name, cb_text));
            rewritten_events.push(event);
            proof {
                let st = choose|stmts: Seq<String>| ct == #[trigger] handler_text(
                    ev_ident,
                    stmts,
                );
                let ghost pre_list = stmts_list;
                stmts_list = stmts_list.push(st);
                assert(ev_ident == old(local_details).events_closures@[k as int].ident.text@);
                assert forall|j: int|
                    0 <= j < k + 1 implies (#[trigger] callbacks@[j]).1@ == handler_text(
                        old(local_details).events_closures@[j].ident.text@,
                        stmts_list[j],
                    ) by {
                    if j < k {
                        assert(callbacks@[j] == cbs_pre[j]);
                        assert(stmts_list[j] == pre_list[j]);
                    }
                }
            }
            k = k + 1;
        }
        local_details.events_closures = rewritten_events;
        match ident_modifier.raise_errors() {
            Ok(_) => {},
            Err(d) => {
                return Err(d);
            },
        }
        match check_ident_expr(elements, local_details) {
            Ok(_) => {},
            Err(d) => {
                return Err(d);
            },
        }
        match crate::template::nodes::try_budget(elements) {
            Some(_) => {},
            None => {
                return Err(Diag::new(0, String::from_str("The template is too large.")));
            },
        }
        let mut state = State { init_block, fields_type, fields_value, callbacks };
        let ghost callbacks_before = state.callbacks@;
        let dom = match Dom::generate(elements, local_details, Vec::new(), &mut state, true, lookups)
        {
            Ok(d) => d,
            Err(d) => {
                return Err(d);
            },
        };
        proof {
            assert forall|j: int|
                0 <= j < old(local_details).events_closures@.len() implies (
            #[trigger] state.callbacks@[j]).0@ == old(
                local_details,
            ).events_closures@[j].ident.text@ by {
                assert(state.callbacks@.take(callbacks_before.len() as int)[j]
                    == state.callbacks@[j]);
            }
            assert(callbacks_before.len() == old(local_details).events_closures@.len());
            assert(state.callbacks@.take(callbacks_before.len() as int) == callbacks_before);
        }
        let comp = Component { dom, state };
        proof {
            assert forall|j: int|
                0 <= j < old(local_details).events_closures@.len() && j < stmts_list.len() && j
                    < comp.state.callbacks@.len() implies (#[trigger] comp.state.callbacks@[j]).1@
                == handler_text(
                old(local_details).events_closures@[j].ident.text@,
                stmts_list[j],
            ) by {
                assert(comp.state.callbacks@.take(callbacks_before.len() as int)[j]
                    == comp.state.callbacks@[j]);
                assert(callbacks_before[j] == comp.state.callbacks@[j]);
            }
            assert(handler_texts_match(
                comp.state.callbacks@,
                old(local_details).events_closures@,
                stmts_list,
            ));
            assert(stmts_list.len() == old(local_details).events_closures@.len());
        }
        Ok(comp)
    }
}

/// Runs the whole pipeline on one template source: lex, parse the host
/// block and the element tree, classify the declarations, validate every
/// bare identifier, and compile. The caller supplies the cached
/// type-lookup results, keyed by exact snippet text; the snippets a
/// source needs come from [`template_loop_snippets`]. Warnings collect in
/// the list handed in.
pub fn full_error_wrapper(
    source: &str,
    lookups: &Vec<(String, Vec<PatBinding>)>,
    warnings: &mut Vec<Diag>,
) -> (r: Result<Component, Diag>)
    ensures
        r matches Ok(c) ==> {
            &&& c.dom.wf()
            &&& c.dom.append_nodes
            &&& c.dom.update@.len() > 0
            &&& c.dom.update@.last() is ClearUpdatedIdents
            &&& forall|j: int|
                0 <= j < c.dom.update@.len() - 1 ==> !((#[trigger] c.dom.update@[j])
                    is ClearUpdatedIdents)
        },
{
    let (block, elements, mut details) = front_half(source, warnings)?;
    match Component::new(&mut details, &elements, lookups) {
        Ok(c) => Ok(c),
        Err(d) => Err(d),
    }
}

/// The pipeline up to classification: lex, parse the leading host block
/// and the element tree, and extract the declarations.
fn front_half(source: &str, warnings: &mut Vec<Diag>) -> (r: Result<
    (Vec<crate::expr::Stmt>, Vec<Element>, LocalDetails),
    Diag,
>)
{
    let src_chars = chars_of(source);
    let tokens = match tokenize(&src_chars) {
        Ok(t) => t,
        Err(d) => {
            return Err(d);
        },
    };
    if tokens.len() > usize::MAX - 3 {
        return Err(Diag::new(0, String::from_str("The template is too large.")));
    }
    let (block, after_block) = match crate::expr_parse::parse_block(&tokens, 0) {
        Ok(p) => p,
        Err(d) => {
            return Err(d);
        },
    };
    let (root, _) = match Root::parse(&tokens, after_block, warnings) {
        Ok(p) => p,
        Err(d) => {
            return Err(d);
        },
    };
    let details = match extract_locals(&block) {
        Ok(d) => d,
        Err(d) => {
            return Err(d);
        },
    };
    let Root(elements) = root;
    Ok((block, elements, details))
}

/// The type-lookup snippets one template source needs, in document
/// order, so the caller can resolve them before compiling.
pub fn template_loop_snippets(source: &str, warnings: &mut Vec<Diag>) -> (r: Result<
    Vec<String>,
    Diag,
>)
{
    let (_, elements, details) = front_half(source, warnings)?;
    Ok(collect_loop_snippets(&elements, &details))
}

} // verus!
