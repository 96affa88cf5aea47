//! The printed form of values: every value can be written in a form that the
//! reader can take in again.
use vstd::prelude::*;

use crate::data::{pointee, Coredata, Function, Macro, Sourcedata, Statement, Symbol};
use crate::env::names_view;
use crate::equality::{code_eq, core_eq};
use crate::text::{integer_text, push_integer, push_string_literal, string_text};

verus! {

/// Where a value stands, which decides how it is written.
#[derive(Clone, Copy, Debug)]
pub enum Context {
    /// The rest of a list that is being written.
    Cell,
    /// The rest of a piece of code.
    Runnable,
    /// A piece of code: lists are written as calls, symbols bare.
    Run,
    /// A plain value: lists are written `(list ...)`, symbols `(@ ...)`.
    TopLevel,
}

pub open spec fn spacing(sp: bool) -> Seq<char> {
    if sp {
        " "@
    } else {
        Seq::<char>::empty()
    }
}

pub open spec fn head_context(ctx: Context) -> Context {
    match ctx {
        Context::Run | Context::Runnable => Context::Run,
        _ => Context::TopLevel,
    }
}

pub open spec fn tail_context(ctx: Context) -> Context {
    match ctx {
        Context::Run | Context::Runnable => Context::Runnable,
        _ => Context::Cell,
    }
}

pub open spec fn cell_open(ctx: Context) -> Seq<char> {
    match ctx {
        Context::Run => "("@,
        Context::TopLevel => "(list "@,
        _ => Seq::<char>::empty(),
    }
}

pub open spec fn cell_close(ctx: Context) -> Seq<char> {
    match ctx {
        Context::Run | Context::TopLevel => ")"@,
        _ => Seq::<char>::empty(),
    }
}

/// Parameter names separated by single spaces.
pub open spec fn joined(params: Seq<Symbol>) -> Seq<char>
    decreases params.len(),
{
    if params.len() == 0 {
        Seq::<char>::empty()
    } else if params.len() == 1 {
        params[0]@
    } else {
        joined(params.drop_last()) + " "@ + params.last()@
    }
}

/// The text of `d` written in context `ctx`, where `sp` tells whether a space
/// must separate it from what came before; with whether a space must separate
/// what comes after.
#[verifier::opaque]
pub open spec fn render(d: Sourcedata, ctx: Context, sp: bool) -> (Seq<char>, bool)
    decreases d, 0int,
{
    match d.1 {
        Coredata::Boolean(b) => (spacing(sp) + (if b {
            "true"@
        } else {
            "false"@
        }), true),
        Coredata::Cell(h, t) => {
            let (oh, s1) = render(*h, head_context(ctx), false);
            let (ot, s2) = render(*t, tail_context(ctx), s1);
            (spacing(sp) + cell_open(ctx) + oh + ot + cell_close(ctx), s2)
        },
        Coredata::Error(a) => {
            if a.1 is Null {
                (spacing(sp) + "(error"@ + ")"@, true)
            } else {
                let (oa, sa) = render(*a, Context::TopLevel, true);
                (spacing(sp) + "(error"@ + oa + ")"@, sa)
            }
        },
        Coredata::Function(Function::Builtin(_, name)) => (spacing(sp) + name@, true),
        Coredata::Function(Function::Library(params, code)) => {
            let (oc, sc) = render_code(code@, code@.len() as int, true);
            (spacing(sp) + "(function ("@ + joined(params@) + ")"@ + oc + ")"@, sc)
        },
        Coredata::Integer(n) => (spacing(sp) + integer_text(n as int), true),
        Coredata::Macro(Macro::Builtin(_, name)) => (spacing(sp) + name@, true),
        Coredata::Macro(Macro::Library(param, code)) => {
            let (oc, sc) = render_code(code@, code@.len() as int, true);
            (spacing(sp) + "(macro "@ + param@ + oc + ")"@, sc)
        },
        Coredata::Null() => {
            if ctx is Cell || ctx is Runnable {
                (Seq::<char>::empty(), true)
            } else {
                (spacing(sp) + "()"@, true)
            }
        },
        Coredata::String(s) => (spacing(sp) + string_text(s@), true),
        Coredata::Symbol(s) => {
            if ctx is Runnable || ctx is Run {
                (spacing(sp) + s@, true)
            } else {
                (spacing(sp) + "(@ "@ + s@ + ")"@, true)
            }
        },
        Coredata::Internal(..) | Coredata::Table(..) => (Seq::<char>::empty(), sp),
    }
}

/// The first `n` statements of a piece of code written last one first, each as
/// code.
pub open spec fn render_code(code: Seq<Statement>, n: int, sp: bool) -> (Seq<char>, bool)
    decreases code, n,
{
    if n <= 0 || n > code.len() {
        (Seq::<char>::empty(), sp)
    } else {
        let (o1, s1) = render(*code[n - 1], Context::Run, sp);
        let (o2, s2) = render_code(code, n - 1, s1);
        (o1 + o2, s2)
    }
}

/// The printed form of a value.
pub open spec fn printed(d: Sourcedata) -> Seq<char> {
    render(d, Context::TopLevel, false).0
}

/// What is still to be written: values in their contexts, and closing brackets.
enum Queue<'a> {
    Close,
    Data(&'a Sourcedata, Context),
}

spec fn render_item(item: Queue, sp: bool) -> (Seq<char>, bool) {
    match item {
        Queue::Close => (")"@, sp),
        Queue::Data(d, ctx) => render(*d, ctx, sp),
    }
}

/// The text of a queue, written from its last item down to its first.
#[verifier::opaque]
spec fn render_stack(q: Seq<Queue>, sp: bool) -> (Seq<char>, bool)
    decreases q.len(),
{
    if q.len() == 0 {
        (Seq::<char>::empty(), sp)
    } else {
        let (o1, s1) = render_item(q.last(), sp);
        let (o2, s2) = render_stack(q.drop_last(), s1);
        (o1 + o2, s2)
    }
}

spec fn then_stack(first: (Seq<char>, bool), q: Seq<Queue>) -> (Seq<char>, bool) {
    let (o2, s2) = render_stack(q, first.1);
    (first.0 + o2, s2)
}

/// A bound on the work left in writing a value.
#[verifier::opaque]
spec fn weight(d: Sourcedata) -> nat
    decreases d, 0int,
{
    match d.1 {
        Coredata::Cell(h, t) => weight(*h) + weight(*t) + 5,
        Coredata::Error(a) => weight(*a) + 2,
        Coredata::Function(Function::Library(_, code)) => code_weight(code@, code@.len() as int)
            + 1,
        Coredata::Macro(Macro::Library(_, code)) => code_weight(code@, code@.len() as int) + 1,
        _ => 0,
    }
}

spec fn code_weight(code: Seq<Statement>, n: int) -> nat
    decreases code, n,
{
    if n <= 0 || n > code.len() {
        0
    } else {
        weight(*code[n - 1]) + 2 + code_weight(code, n - 1)
    }
}

#[verifier::opaque]
spec fn stack_weight(q: Seq<Queue>) -> nat
    decreases q.len(),
{
    if q.len() == 0 {
        0
    } else {
        stack_weight(q.drop_last()) + match q.last() {
            Queue::Close => 1nat,
            Queue::Data(d, _) => weight(*d) + 2,
        }
    }
}

spec fn item_weight(item: Queue) -> nat {
    match item {
        Queue::Close => 1nat,
        Queue::Data(d, _) => weight(*d) + 2,
    }
}

proof fn lemma_stack_push(q: Seq<Queue>, item: Queue, sp: bool)
    ensures
        render_stack(q.push(item), sp) == then_stack(render_item(item, sp), q),
        stack_weight(q.push(item)) == stack_weight(q) + item_weight(item),
{
    reveal(render_stack);
    reveal(stack_weight);
    assert(q.push(item).drop_last() =~= q);
}

proof fn lemma_stack_empty(sp: bool)
    ensures
        render_stack(Seq::<Queue>::empty(), sp) == (Seq::<char>::empty(), sp),
        stack_weight(Seq::<Queue>::empty()) == 0,
{
    reveal(render_stack);
    reveal(stack_weight);
}

proof fn lemma_then_assoc(a: Seq<char>, first: (Seq<char>, bool), q: Seq<Queue>)
    ensures
        then_stack((a + first.0, first.1), q).0 == a + then_stack(first, q).0,
        then_stack((a + first.0, first.1), q).1 == then_stack(first, q).1,
{
    assert(a + first.0 + render_stack(q, first.1).0 =~= a + (first.0 + render_stack(q, first.1).0));
}

/// Writes what `data` starts with and queues what it holds, so that what is
/// written and what is queued together stand for `data` followed by the queue.
fn write_item<'a>(
    data: &'a Sourcedata,
    context: Context,
    out: &mut String,
    queue: &mut Vec<Queue<'a>>,
    spacer: &mut bool,
)
    ensures
        old(out)@ + then_stack(render(*data, context, *old(spacer)), old(queue)@).0 == final(out)@
            + render_stack(final(queue)@, *final(spacer)).0,
        stack_weight(final(queue)@) < stack_weight(old(queue)@) + weight(*data) + 2,
{
    let ghost q0 = queue@;
    let ghost sp = *spacer;
    match data.1 {
        Coredata::Boolean(state) => {
            if *spacer {
                out.append(" ");
            }
            if state {
                out.append("true");
            } else {
                out.append("false");
            }
            *spacer = true;
            proof {
                reveal(render);
                assert(out@ =~= old(out)@ + render(*data, context, sp).0);
            }
        },
        Coredata::Function(Function::Builtin(_, ref name)) => {
            if *spacer {
                out.append(" ");
            }
            out.append(name.as_str());
            *spacer = true;
            proof {
                reveal(render);
                assert(out@ =~= old(out)@ + render(*data, context, sp).0);
            }
        },
        Coredata::Cell(..) => {
            write_cell(data, context, out, queue, spacer);
        },
        Coredata::Error(..) => {
            write_error(data, context, out, queue, spacer);
        },
        Coredata::Function(Function::Library(..)) | Coredata::Macro(Macro::Library(..)) => {
            write_code_value(data, context, out, queue, spacer);
        },
        Coredata::Integer(ref value) => {
            if *spacer {
                out.append(" ");
            }
            push_integer(out, *value);
            *spacer = true;
            proof {
                reveal(render);
                assert(out@ =~= old(out)@ + render(*data, context, sp).0);
            }
        },
        Coredata::Macro(Macro::Builtin(_, ref name)) => {
            if *spacer {
                out.append(" ");
            }
            out.append(name.as_str());
            *spacer = true;
            proof {
                reveal(render);
                assert(out@ =~= old(out)@ + render(*data, context, sp).0);
            }
        },
        Coredata::Null() => {
            match context {
                Context::Cell | Context::Runnable => {},
                _ => {
                    if *spacer {
                        out.append(" ");
                    }
                    out.append("()");
                },
            }
            *spacer = true;
            proof {
                reveal(render);
                assert(out@ =~= old(out)@ + render(*data, context, sp).0);
            }
        },
        Coredata::String(ref arg) => {
            if *spacer {
                out.append(" ");
            }
            push_string_literal(out, arg.as_str());
            *spacer = true;
            proof {
                reveal(render);
                assert(out@ =~= old(out)@ + render(*data, context, sp).0);
            }
        },
        Coredata::Symbol(ref symbol) => {
            if *spacer {
                out.append(" ");
            }
            match context {
                Context::Runnable | Context::Run => {
                    out.append(symbol.as_str());
                },
                _ => {
                    out.append("(@ ");
                    out.append(symbol.as_str());
                    out.append(")");
                },
            }
            *spacer = true;
            proof {
                reveal(render);
                assert(out@ =~= old(out)@ + render(*data, context, sp).0);
            }
        },
        _ => {
            proof {
                reveal(render);
                assert(out@ =~= old(out)@ + render(*data, context, sp).0);
            }
        },
    }
}


proof fn lemma_weight(d: Sourcedata)
    ensures
        d.1 matches Coredata::Cell(h, t) ==> weight(d) == weight(*h) + weight(*t) + 5,
        d.1 matches Coredata::Error(a) ==> weight(d) == weight(*a) + 2,
        d.1 matches Coredata::Function(Function::Library(_, code)) ==> weight(d) == code_weight(
            code@,
            code@.len() as int,
        ) + 1,
        d.1 matches Coredata::Macro(Macro::Library(_, code)) ==> weight(d) == code_weight(
            code@,
            code@.len() as int,
        ) + 1,
{
    reveal(weight);
}

proof fn lemma_render_error(d: Sourcedata, ctx: Context, sp: bool)
    requires
        d.1 is Error,
    ensures
        (*d.1->Error_0).1 is Null ==> render(d, ctx, sp) == (spacing(sp) + "(error"@ + ")"@, true),
        !((*d.1->Error_0).1 is Null) ==> ({
            let (oa, sa) = render(*d.1->Error_0, Context::TopLevel, true);
            render(d, ctx, sp) == (spacing(sp) + "(error"@ + oa + ")"@, sa)
        }),
{
    reveal(render);
}

proof fn lemma_render_code_value(d: Sourcedata, ctx: Context, sp: bool)
    ensures
        d.1 matches Coredata::Function(Function::Library(params, code)) ==> ({
            let (oc, sc) = render_code(code@, code@.len() as int, true);
            render(d, ctx, sp) == (spacing(sp) + "(function ("@ + joined(params@) + ")"@ + oc
                + ")"@, sc)
        }),
        d.1 matches Coredata::Macro(Macro::Library(param, code)) ==> ({
            let (oc, sc) = render_code(code@, code@.len() as int, true);
            render(d, ctx, sp) == (spacing(sp) + "(macro "@ + param@ + oc + ")"@, sc)
        }),
{
    reveal(render);
}

fn push_spacing(out: &mut String, spacer: bool)
    ensures
        final(out)@ == old(out)@ + spacing(spacer),
{
    if spacer {
        out.append(" ");
    } else {
        proof {
            assert(out@ =~= old(out)@ + spacing(spacer));
        }
    }
}

fn push_cell_open(out: &mut String, context: Context)
    ensures
        final(out)@ == old(out)@ + cell_open(context),
{
    match context {
        Context::Run => out.append("("),
        Context::TopLevel => out.append("(list "),
        _ => {
            proof {
                assert(out@ =~= old(out)@ + cell_open(context));
            }
        },
    }
}

fn closes(context: Context) -> (r: bool)
    ensures
        r == (context is Run || context is TopLevel),
        r ==> cell_close(context) == ")"@,
        !r ==> cell_close(context) == Seq::<char>::empty(),
{
    match context {
        Context::Run | Context::TopLevel => true,
        _ => false,
    }
}

fn head_context_of(context: Context) -> (r: Context)
    ensures
        r == head_context(context),
{
    match context {
        Context::Run | Context::Runnable => Context::Run,
        _ => Context::TopLevel,
    }
}

fn tail_context_of(context: Context) -> (r: Context)
    ensures
        r == tail_context(context),
{
    match context {
        Context::Run | Context::Runnable => Context::Runnable,
        _ => Context::Cell,
    }
}

proof fn lemma_render_code_step(code: Seq<Statement>, n: int, sp: bool)
    requires
        0 < n <= code.len(),
    ensures
        ({
            let (o1, s1) = render(*code[n - 1], Context::Run, sp);
            render_code(code, n, sp) == (o1 + render_code(code, n - 1, s1).0, render_code(
                code,
                n - 1,
                s1,
            ).1)
        }),
        code_weight(code, n) == weight(*code[n - 1]) + 2 + code_weight(code, n - 1),
{
    reveal(render);
    reveal(weight);
}

proof fn lemma_render_cell(d: Sourcedata, ctx: Context, sp: bool)
    requires
        d.1 is Cell,
    ensures
        ({
            let (oh, s1) = render(*d.1->Cell_0, head_context(ctx), false);
            let (ot, s2) = render(*d.1->Cell_1, tail_context(ctx), s1);
            render(d, ctx, sp) == (spacing(sp) + cell_open(ctx) + oh + ot + cell_close(ctx), s2)
        }),
{
    reveal(render);
}

proof fn lemma_cell_written<'a>(
    d: Sourcedata,
    ctx: Context,
    sp: bool,
    q0: Seq<Queue<'a>>,
    q1: Seq<Queue<'a>>,
    q3: Seq<Queue<'a>>,
    h: &'a Sourcedata,
    t: &'a Sourcedata,
)
    requires
        d.1 is Cell,
        *d.1->Cell_0 == *h,
        *d.1->Cell_1 == *t,
        q1 == (if ctx is Run || ctx is TopLevel {
            q0.push(Queue::Close)
        } else {
            q0
        }),
        q3 == q1.push(Queue::Data(t, tail_context(ctx))).push(Queue::Data(h, head_context(ctx))),
    ensures
        then_stack(render(d, ctx, sp), q0).0 == spacing(sp) + cell_open(ctx) + render_stack(
            q3,
            false,
        ).0,
        stack_weight(q3) < stack_weight(q0) + weight(d) + 2,
{
    let (oh, s1) = render(*h, head_context(ctx), false);
    let (ot, s2) = render(*t, tail_context(ctx), s1);
    let q2 = q1.push(Queue::Data(t, tail_context(ctx)));
    lemma_render_cell(d, ctx, sp);
    lemma_weight(d);
    lemma_stack_push(q2, Queue::Data(h, head_context(ctx)), false);
    lemma_stack_push(q1, Queue::Data(t, tail_context(ctx)), s1);
    let rest = render_stack(q0, s2).0;
    if ctx is Run || ctx is TopLevel {
        lemma_stack_push(q0, Queue::Close, s2);
    }
    assert(render_stack(q1, s2).0 == cell_close(ctx) + rest);
    assert(render_stack(q3, false).0 == oh + (ot + (cell_close(ctx) + rest)));
    assert(then_stack(render(d, ctx, sp), q0).0 =~= spacing(sp) + cell_open(ctx) + (oh + (ot + (
    cell_close(ctx) + rest))));
}

fn write_cell<'a>(
    data: &'a Sourcedata,
    context: Context,
    out: &mut String,
    queue: &mut Vec<Queue<'a>>,
    spacer: &mut bool,
)
    requires
        data.1 is Cell,
    ensures
        old(out)@ + then_stack(render(*data, context, *old(spacer)), old(queue)@).0 == final(out)@
            + render_stack(final(queue)@, *final(spacer)).0,
        stack_weight(final(queue)@) < stack_weight(old(queue)@) + weight(*data) + 2,
{
    let ghost q0 = queue@;
    let ghost sp = *spacer;
    match data.1 {
        Coredata::Cell(ref head, ref tail) => {
            push_spacing(out, *spacer);
            push_cell_open(out, context);
            if closes(context) {
                queue.push(Queue::Close);
            }
            let ghost q1 = queue@;
            let tail_ctx = tail_context_of(context);
            let head_ctx = head_context_of(context);
            queue.push(Queue::Data(&**tail, tail_ctx));
            let ghost q2 = queue@;
            queue.push(Queue::Data(&**head, head_ctx));
            *spacer = false;
            proof {
                lemma_cell_written(*data, context, sp, q0, q1, queue@, &**head, &**tail);
                assert(old(out)@ + then_stack(render(*data, context, sp), q0).0 =~= out@
                    + render_stack(queue@, false).0);
            }
        },
        _ => {},
    }
}

fn write_error<'a>(
    data: &'a Sourcedata,
    context: Context,
    out: &mut String,
    queue: &mut Vec<Queue<'a>>,
    spacer: &mut bool,
)
    requires
        data.1 is Error,
    ensures
        old(out)@ + then_stack(render(*data, context, *old(spacer)), old(queue)@).0 == final(out)@
            + render_stack(final(queue)@, *final(spacer)).0,
        stack_weight(final(queue)@) < stack_weight(old(queue)@) + weight(*data) + 2,
{
    let ghost q0 = queue@;
    let ghost sp = *spacer;
    match data.1 {
        Coredata::Error(ref arg) => {
            if *spacer {
                out.append(" ");
            }
            out.append("(error");
            match arg.1 {
                Coredata::Null() => {
                    out.append(")");
                },
                _ => {
                    queue.push(Queue::Close);
                    let ghost q1 = queue@;
                    queue.push(Queue::Data(&**arg, Context::TopLevel));
                    proof {
                        let (oa, sa) = render(pointee(arg), Context::TopLevel, true);
                        lemma_stack_push(q1, Queue::Data(&**arg, Context::TopLevel), true);
                        lemma_stack_push(q0, Queue::Close, sa);
                    }
                },
            }
            *spacer = true;
            proof {
                lemma_render_error(*data, context, sp);
                lemma_weight(*data);
                assert(old(out)@ + then_stack(render(*data, context, sp), q0).0 =~= out@
                    + render_stack(queue@, true).0);
            }
        },
        _ => {},
    }
}

fn write_code_value<'a>(
    data: &'a Sourcedata,
    context: Context,
    out: &mut String,
    queue: &mut Vec<Queue<'a>>,
    spacer: &mut bool,
)
    requires
        data.1 matches Coredata::Function(Function::Library(..)) || data.1 matches Coredata::Macro(Macro::Library(..)),
    ensures
        old(out)@ + then_stack(render(*data, context, *old(spacer)), old(queue)@).0 == final(out)@
            + render_stack(final(queue)@, *final(spacer)).0,
        stack_weight(final(queue)@) < stack_weight(old(queue)@) + weight(*data) + 2,
{
    let ghost q0 = queue@;
    let ghost sp = *spacer;
    match data.1 {
        Coredata::Function(Function::Library(ref params, ref code)) => {
            if *spacer {
                out.append(" ");
            }
            out.append("(function (");
            push_joined(out, params);
            out.append(")");
            let ghost written = out@;
            queue_code(code, queue);
            *spacer = true;
            proof {
                let sc = render_code(code@, code@.len() as int, true).1;
                lemma_stack_push(q0, Queue::Close, sc);
                lemma_render_code_value(*data, context, sp);
                lemma_weight(*data);
                assert(render_stack(queue@, true) == then_stack(
                    render_code(code@, code@.len() as int, true),
                    q0.push(Queue::Close),
                ));
                assert(written =~= old(out)@ + spacing(sp) + "(function ("@ + joined(params@)
                    + ")"@);
                assert(old(out)@ + then_stack(render(*data, context, sp), q0).0 =~= out@
                    + render_stack(queue@, true).0);
            }
        },
        Coredata::Macro(Macro::Library(ref param, ref code)) => {
            if *spacer {
                out.append(" ");
            }
            out.append("(macro ");
            out.append(param.as_str());
            let ghost written = out@;
            queue_code(code, queue);
            *spacer = true;
            proof {
                let sc = render_code(code@, code@.len() as int, true).1;
                lemma_stack_push(q0, Queue::Close, sc);
                lemma_render_code_value(*data, context, sp);
                lemma_weight(*data);
                assert(render_stack(queue@, true) == then_stack(
                    render_code(code@, code@.len() as int, true),
                    q0.push(Queue::Close),
                ));
                assert(written =~= old(out)@ + spacing(sp) + "(macro "@ + param@);
                assert(old(out)@ + then_stack(render(*data, context, sp), q0).0 =~= out@
                    + render_stack(queue@, true).0);
            }
        },
        _ => {},
    }
}

/// Appends the names separated by single spaces.
fn push_joined(out: &mut String, params: &Vec<Symbol>)
    ensures
        final(out)@ == old(out)@ + joined(params@),
{
    let n = params.len();
    let mut i: usize = 0;
    let mut first = true;
    while i < n
        invariant
            n == params.len(),
            i <= n,
            first == (i == 0),
            out@ == old(out)@ + joined(params@.take(i as int)),
        decreases n - i,
    {
        if !first {
            out.append(" ");
        }
        out.append(params[i].as_str());
        first = false;
        proof {
            let t = params@.take(i + 1);
            assert(t.drop_last() =~= params@.take(i as int));
            if i == 0 {
                assert(joined(params@.take(0)) =~= Seq::<char>::empty());
            }
            assert(out@ =~= old(out)@ + joined(t));
        }
        i = i + 1;
    }
    proof {
        assert(params@.take(n as int) =~= params@);
    }
}

/// Queues a closing bracket and then each statement of `code` as code, so that
/// they come out last statement first.
fn queue_code<'a>(code: &'a Vec<Statement>, queue: &mut Vec<Queue<'a>>)
    ensures
        forall|sp: bool|
            #![trigger render_stack(final(queue)@, sp)]
            render_stack(final(queue)@, sp) == then_stack(
                render_code(code@, code@.len() as int, sp),
                old(queue)@.push(Queue::Close),
            ),
        stack_weight(final(queue)@) == stack_weight(old(queue)@) + 1 + code_weight(
            code@,
            code@.len() as int,
        ),
{
    let ghost q0 = queue@;
    queue.push(Queue::Close);
    let ghost q1 = queue@;
    proof {
        lemma_stack_push(q0, Queue::Close, true);
        lemma_stack_push(q0, Queue::Close, false);
    }
    let n = code.len();
    let mut i: usize = 0;
    while i < n
        invariant
            n == code.len(),
            i <= n,
            q1 == q0.push(Queue::Close),
            stack_weight(q1) == stack_weight(q0) + 1,
            render_stack(queue@, true) == then_stack(render_code(code@, i as int, true), q1),
            render_stack(queue@, false) == then_stack(render_code(code@, i as int, false), q1),
            stack_weight(queue@) == stack_weight(q1) + code_weight(code@, i as int),
        decreases n - i,
    {
        let ghost q = queue@;
        queue.push(Queue::Data(&*code[i], Context::Run));
        proof {
            let item = Queue::Data(&*code[i as int], Context::Run);
            lemma_stack_push(q, item, true);
            lemma_stack_push(q, item, false);
            let (o1, s1) = render(pointee(&code@[i as int]), Context::Run, true);
            let (o2, s2) = render(pointee(&code@[i as int]), Context::Run, false);
            lemma_then_assoc(o1, render_code(code@, i as int, s1), q1);
            lemma_then_assoc(o2, render_code(code@, i as int, s2), q1);
            lemma_render_code_step(code@, i + 1, true);
            lemma_render_code_step(code@, i + 1, false);
        }
        i = i + 1;
    }
}

impl Sourcedata {
    /// The printed form, which the reader can take in again.
    pub fn to_string(&self) -> (r: String)
        ensures
            r@ == printed(*self),
    {
        let mut out = String::new();
        let mut queue: Vec<Queue> = Vec::new();
        let mut spacer = false;
        queue.push(Queue::Data(self, Context::TopLevel));
        proof {
            let first = render(*self, Context::TopLevel, false);
            lemma_stack_push(Seq::<Queue>::empty(), Queue::Data(self, Context::TopLevel), false);
            lemma_stack_empty(first.1);
            assert(Seq::<Queue>::empty().push(Queue::Data(self, Context::TopLevel)) =~= queue@);
            assert(printed(*self) =~= out@ + render_stack(queue@, spacer).0);
        }
        while queue.len() > 0
            invariant
                printed(*self) == out@ + render_stack(queue@, spacer).0,
            decreases stack_weight(queue@),
        {
            let ghost q = queue@;
            let ghost before = out@;
            let ghost sp0 = spacer;
            let elem = queue.pop().unwrap();
            let ghost rest = queue@;
            proof {
                assert(q =~= rest.push(elem));
                lemma_stack_push(rest, elem, sp0);
            }
            match elem {
                Queue::Close => {
                    out.append(")");
                    proof {
                        assert(before + render_stack(q, sp0).0 =~= out@ + render_stack(queue@, spacer).0);
                    }
                },
                Queue::Data(data, context) => {
                    write_item(data, context, &mut out, &mut queue, &mut spacer);
                },
            }
        }
        proof {
            lemma_stack_empty(spacer);
            assert(queue@ =~= Seq::<Queue>::empty());
            assert(out@ =~= printed(*self));
        }
        out
    }
}


pub(crate) proof fn lemma_joined_views(p1: Seq<Symbol>, p2: Seq<Symbol>)
    requires
        names_view(p1) == names_view(p2),
    ensures
        joined(p1) == joined(p2),
    decreases p1.len(),
{
    assert(names_view(p1).len() == p1.len());
    assert(names_view(p2).len() == p2.len());
    if p1.len() > 0 {
        assert(names_view(p1.drop_last()) =~= names_view(p1).drop_last());
        assert(names_view(p2.drop_last()) =~= names_view(p2).drop_last());
        lemma_joined_views(p1.drop_last(), p2.drop_last());
        assert(p1.last()@ == names_view(p1).last());
        assert(p2.last()@ == names_view(p2).last());
        if p1.len() == 1 {
            assert(p1[0]@ == names_view(p1)[0]);
            assert(p2[0]@ == names_view(p2)[0]);
        }
    }
}

/// Values that are equal are written in the same way, wherever they stand:
/// positions and the native routine behind a builtin do not show.
pub proof fn lemma_equal_values_render_alike(a: Sourcedata, b: Sourcedata, ctx: Context, sp: bool)
    requires
        core_eq(a.1, b.1),
    ensures
        render(a, ctx, sp) == render(b, ctx, sp),
    decreases a, 0int,
{
    reveal(render);
    match (a.1, b.1) {
        (Coredata::Cell(h1, t1), Coredata::Cell(h2, t2)) => {
            lemma_equal_values_render_alike(pointee(&h1), pointee(&h2), head_context(ctx), false);
            let s1 = render(pointee(&h1), head_context(ctx), false).1;
            lemma_equal_values_render_alike(pointee(&t1), pointee(&t2), tail_context(ctx), s1);
        },
        (Coredata::Error(x), Coredata::Error(y)) => {
            assert(core_eq(x.1, y.1));
            assert(x.1 is Null <==> y.1 is Null);
            lemma_equal_values_render_alike(pointee(&x), pointee(&y), Context::TopLevel, true);
        },
        (
            Coredata::Function(Function::Library(p1, c1)),
            Coredata::Function(Function::Library(p2, c2)),
        ) => {
            lemma_joined_views(p1@, p2@);
            crate::equality::lemma_code_eq_length(c1@, c2@, c1@.len() as int);
            lemma_code_renders_alike(c1@, c2@, c1@.len() as int, true);
        },
        (Coredata::Macro(Macro::Library(_, c1)), Coredata::Macro(Macro::Library(_, c2))) => {
            crate::equality::lemma_code_eq_length(c1@, c2@, c1@.len() as int);
            lemma_code_renders_alike(c1@, c2@, c1@.len() as int, true);
        },
        _ => {},
    }
}

proof fn lemma_code_renders_alike(c1: Seq<Statement>, c2: Seq<Statement>, n: int, sp: bool)
    requires
        code_eq(c1, c2, n),
    ensures
        render_code(c1, n, sp) == render_code(c2, n, sp),
    decreases c1, n,
{
    reveal(render);
    crate::equality::lemma_code_eq_length(c1, c2, n);
    if 0 < n <= c1.len() {
        lemma_equal_values_render_alike(pointee(&c1[n - 1]), pointee(&c2[n - 1]), Context::Run, sp);
        let s1 = render(pointee(&c1[n - 1]), Context::Run, sp).1;
        lemma_code_renders_alike(c1, c2, n - 1, s1);
    }
}

/// Values that are equal print the same text.
pub proof fn law_equal_values_print_alike(a: Sourcedata, b: Sourcedata)
    requires
        core_eq(a.1, b.1),
    ensures
        printed(a) == printed(b),
{
    lemma_equal_values_render_alike(a, b, Context::TopLevel, false);
}

/// Null is written `()` both as a plain value and in code, as a statement or
/// as an argument; it disappears only where it ends a list or a piece of code.
pub proof fn law_null_written_as_empty_list(d: Sourcedata, ctx: Context, sp: bool)
    requires
        d.1 is Null,
    ensures
        ctx is Run || ctx is TopLevel ==> render(d, ctx, sp) == (spacing(sp) + "()"@, true),
        ctx is Cell || ctx is Runnable ==> render(d, ctx, sp) == (Seq::<char>::empty(), true),
{
    reveal(render);
}

/// A symbol is written as its bare name in code and as `(@ name)` as a plain
/// value.
pub proof fn law_symbol_written_bare_in_code(d: Sourcedata, ctx: Context, sp: bool)
    requires
        d.1 is Symbol,
    ensures
        ctx is Run || ctx is Runnable ==> render(d, ctx, sp) == (spacing(sp) + d.1->Symbol_0@, true),
        ctx is TopLevel || ctx is Cell ==> render(d, ctx, sp) == (spacing(sp) + "(@ "@
            + d.1->Symbol_0@ + ")"@, true),
{
    reveal(render);
}

} // verus!
