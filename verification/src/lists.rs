//! Linked lists of cells: building them from programs and reading them back.
use std::sync::Arc;
use vstd::prelude::*;
use vstd::std_specs::convert::FromSpecImpl;

use crate::data::{pointee, rcs, Coredata, Program, Source, Sourcedata, Statement, Symbol};
use crate::env::names_view;

verus! {

/// The list whose first cell holds the last statement of `p`, and so on down
/// to the first statement, ending in null.
pub open spec fn cells_of(p: Seq<Statement>) -> Sourcedata
    decreases p.len(),
{
    if p.len() == 0 {
        Sourcedata(None, Coredata::Null())
    } else {
        Sourcedata(None, Coredata::Cell(p.last(), Arc::new(cells_of(p.drop_last()))))
    }
}

/// The heads of the cells reached from `d` by following tails, up to the first
/// value that is not a cell.
pub open spec fn list_items(d: Sourcedata) -> Seq<Statement>
    decreases d,
{
    match d.1 {
        Coredata::Cell(h, t) => seq![h] + list_items(*t),
        _ => Seq::<Statement>::empty(),
    }
}

/// The number of cells of a proper list, one that ends in null; `None` for
/// anything else.
pub open spec fn list_len(d: Sourcedata) -> Option<nat>
    decreases d,
{
    match d.1 {
        Coredata::Cell(_, t) => match list_len(*t) {
            Some(n) => Some(n + 1),
            None => None,
        },
        Coredata::Null() => Some(0),
        _ => None,
    }
}

/// The names held by a list of symbols; `None` where a head is not a symbol.
/// The list may end in any value that is not a cell.
pub open spec fn symbol_list(d: Sourcedata) -> Option<Seq<Seq<char>>>
    decreases d,
{
    match d.1 {
        Coredata::Cell(h, t) => match h.1 {
            Coredata::Symbol(s) => match symbol_list(*t) {
                Some(rest) => Some(seq![s@] + rest),
                None => None,
            },
            _ => None,
        },
        _ => Some(Seq::<Seq<char>>::empty()),
    }
}

/// `(line column "source")` as a list.
pub open spec fn source_cells(src: Source) -> Sourcedata {
    Sourcedata(
        None,
        Coredata::Cell(
            Arc::new(Sourcedata(None, Coredata::Integer(src.line as i128))),
            Arc::new(
                Sourcedata(
                    None,
                    Coredata::Cell(
                        Arc::new(Sourcedata(None, Coredata::Integer(src.column as i128))),
                        Arc::new(
                            Sourcedata(
                                None,
                                Coredata::Cell(
                                    Arc::new(Sourcedata(None, Coredata::String(src.source))),
                                    Arc::new(Sourcedata(None, Coredata::Null())),
                                ),
                            ),
                        ),
                    ),
                ),
            ),
        ),
    )
}

/// One entry of a trace: the list `(position statement)`, with null for the
/// position of a statement that has none.
pub open spec fn trace_entry(s: Statement) -> Sourcedata {
    let position = match s.0 {
        Some(src) => source_cells(src),
        None => Sourcedata(None, Coredata::Null()),
    };
    Sourcedata(
        None,
        Coredata::Cell(
            Arc::new(position),
            Arc::new(
                Sourcedata(
                    None,
                    Coredata::Cell(s, Arc::new(Sourcedata(None, Coredata::Null()))),
                ),
            ),
        ),
    )
}

/// The list of the trace entries of the statements of `p`, in their order.
pub open spec fn trace_list(p: Seq<Statement>) -> Sourcedata
    decreases p.len(),
{
    if p.len() == 0 {
        Sourcedata(None, Coredata::Null())
    } else {
        Sourcedata(
            None,
            Coredata::Cell(Arc::new(trace_entry(p[0])), Arc::new(trace_list(p.drop_first()))),
        )
    }
}

/// Builds the list of the statements of a program, the last statement first.
pub fn program_to_cells(program: &Program) -> (r: Statement)
    ensures
        *r == cells_of(program@),
{
    let mut top = rcs(Coredata::Null());
    let n = program.len();
    for i in 0..n
        invariant
            n == program.len(),
            *top == cells_of(program@.take(i as int)),
    {
        top = rcs(Coredata::Cell(program[i].clone(), top.clone()));
        assert(program@.take(i + 1).drop_last() =~= program@.take(i as int));
    }
    assert(program@.take(n as int) =~= program@);
    top
}

impl Sourcedata {
    /// Return the head of a cell, unwind if not a cell.
    pub fn head(&self) -> (r: Option<Arc<Sourcedata>>)
        ensures
            r == (match self.1 {
                Coredata::Cell(h, _) => Some(h),
                _ => None,
            }),
    {
        if let Coredata::Cell(ref head, _) = self.1 {
            Some(head.clone())
        } else {
            None
        }
    }

    /// Return the tail of a cell, unwind if not a cell.
    pub fn tail(&self) -> (r: Option<Arc<Sourcedata>>)
        ensures
            r == (match self.1 {
                Coredata::Cell(_, t) => Some(t),
                _ => None,
            }),
    {
        if let Coredata::Cell(_, ref tail) = self.1 {
            Some(tail.clone())
        } else {
            None
        }
    }

    /// Compute the size of the object in element count: the number of
    /// characters of a string, the number of cells of a proper list, `None`
    /// otherwise.
    pub fn len(&self) -> (r: Option<usize>)
        requires
            list_items(*self).len() <= usize::MAX,
        ensures
            r == (match self.1 {
                Coredata::String(s) => Some(s@.len() as usize),
                _ => match list_len(*self) {
                    Some(n) => Some(n as usize),
                    None => None,
                },
            }),
    {
        if let Coredata::String(ref string) = self.1 {
            return Some(string.as_str().unicode_len());
        }
        let mut current = self;
        let mut length: usize = 0;
        loop
            invariant
                list_items(*self).len() <= usize::MAX,
                list_items(*self).len() == length + list_items(*current).len(),
                list_len(*self) == (match list_len(*current) {
                    Some(n) => Some(n + length as nat),
                    None => None,
                }),
                !(self.1 is String),
            decreases list_items(*current).len(),
        {
            match current.1 {
                Coredata::Cell(_, ref tail) => {
                    length = length + 1;
                    current = &**tail;
                },
                Coredata::Null() => {
                    return Some(length);
                },
                _ => {
                    return None;
                },
            }
        }
    }
}

/// Maps a linked list of data into a vector of data, last head first.
pub fn collect_cell_into_revvec(data: &Arc<Sourcedata>) -> (r: Vec<Arc<Sourcedata>>)
    ensures
        r@ == list_items(**data).reverse(),
{
    let mut heads: Vec<Arc<Sourcedata>> = Vec::new();
    let mut current = data.clone();
    loop
        invariant
            list_items(**data) == heads@ + list_items(*current),
        ensures
            list_items(**data) == heads@,
        decreases list_items(*current).len(),
    {
        current = if let Sourcedata(_, Coredata::Cell(ref head, ref tail)) = *current {
            let ghost before = heads@;
            heads.push(head.clone());
            proof {
                assert(before + list_items(*current) =~= heads@ + list_items(**tail));
            }
            tail.clone()
        } else {
            proof {
                assert(heads@ + list_items(*current) =~= heads@);
            }
            break ;
        }
    }
    let n = heads.len();
    let mut reversed: Vec<Arc<Sourcedata>> = Vec::new();
    let mut i = n;
    while i > 0
        invariant
            i <= n,
            n == heads.len(),
            reversed@ =~= heads@.skip(i as int).reverse(),
        decreases i,
    {
        i = i - 1;
        let ghost before = reversed@;
        reversed.push(heads[i].clone());
        proof {
            assert(heads@.skip(i as int) =~= seq![heads@[i as int]] + heads@.skip(i + 1));
            assert(heads@.skip(i as int).reverse() =~= heads@.skip(i + 1).reverse().push(
                heads@[i as int],
            ));
        }
    }
    proof {
        assert(heads@.skip(0) =~= heads@);
    }
    reversed
}

/// Maps a linked list of symbols into a vector of strings; `None` where the
/// value is neither a cell nor null, or where a head is not a symbol.
pub fn collect_cell_of_symbols_into_vec(data: &Arc<Sourcedata>) -> (r: Option<Vec<Symbol>>)
    ensures
        (data.1 is Cell || data.1 is Null) ==> (r is Some <==> symbol_list(**data) is Some),
        !(data.1 is Cell || data.1 is Null) ==> r is None,
        r matches Some(v) ==> symbol_list(**data) == Some(names_view(v@)),
{
    let mut ret: Vec<Symbol> = Vec::new();
    let mut current = data.clone();
    if let Coredata::Cell(..) = current.1 {
    } else if let Coredata::Null() = current.1 {
    } else {
        return None;
    }
    loop
        invariant
            symbol_list(**data) == (match symbol_list(*current) {
                Some(rest) => Some(names_view(ret@) + rest),
                None => None,
            }),
        ensures
            symbol_list(**data) == Some(names_view(ret@)),
        decreases list_items(*current).len(),
    {
        current = if let Sourcedata(_, Coredata::Cell(ref head, ref tail)) = *current {
            if let Coredata::Symbol(ref symbol) = head.1 {
                let ghost before = ret@;
                ret.push(symbol.clone());
                proof {
                    assert(names_view(ret@) =~= names_view(before).push(symbol@));
                    match symbol_list(pointee(tail)) {
                        Some(rest) => {
                            assert(names_view(before) + (seq![symbol@] + rest) =~= names_view(ret@)
                                + rest);
                        },
                        None => {},
                    }
                }
                tail.clone()
            } else {
                return None;
            }
        } else {
            proof {
                assert(names_view(ret@) + Seq::<Seq<char>>::empty() =~= names_view(ret@));
            }
            break ;
        }
    }
    Some(ret)
}

impl<'a> From<&'a Source> for Arc<Sourcedata> {
    /// The list `(line column "source")`.
    fn from(src: &'a Source) -> (r: Arc<Sourcedata>) {
        rcs(
            Coredata::Cell(
                rcs(Coredata::Integer(src.line as i128)),
                rcs(
                    Coredata::Cell(
                        rcs(Coredata::Integer(src.column as i128)),
                        rcs(Coredata::Cell(rcs(Coredata::String(src.source.clone())), rcs(Coredata::Null()))),
                    ),
                ),
            ),
        )
    }
}

impl<'a> FromSpecImpl<&'a Source> for Arc<Sourcedata> {
    open spec fn obeys_from_spec() -> bool {
        true
    }

    open spec fn from_spec(src: &'a Source) -> Arc<Sourcedata> {
        Arc::new(source_cells(*src))
    }
}

/// Create a list of the entire program stack: for each statement, bottom
/// first, the list of its position and itself.
pub fn internal_trace(program: &mut Program, _env: &mut crate::env::Env) -> (r: Arc<Sourcedata>)
    ensures
        *final(program) == *old(program),
        *final(_env) == *old(_env),
        *r == trace_list(old(program)@),
{
    let n = program.len();
    let mut lst = rcs(Coredata::Null());
    let mut k = n;
    proof {
        assert(program@.skip(n as int) =~= Seq::<Statement>::empty());
    }
    while k > 0
        invariant
            k <= n,
            n == program.len(),
            *program == *old(program),
            *lst == trace_list(program@.skip(k as int)),
        decreases k,
    {
        k = k - 1;
        let i = &program[k];
        let entry = if let Sourcedata(Some(ref source), ..) = **i {
            rcs(Coredata::Cell(Arc::<Sourcedata>::from(source), rcs(Coredata::Cell(i.clone(), rcs(Coredata::Null())))))
        } else {
            rcs(Coredata::Cell(rcs(Coredata::Null()), rcs(Coredata::Cell(i.clone(), rcs(Coredata::Null())))))
        };
        lst = rcs(Coredata::Cell(entry, lst.clone()));
        proof {
            assert(program@.skip(k as int).drop_first() =~= program@.skip(k + 1));
            assert(program@.skip(k as int)[0] == program@[k as int]);
        }
    }
    proof {
        assert(program@.skip(0) =~= program@);
    }
    lst
}

/// Reading back the list that `program_to_cells` builds gives the program.
pub proof fn law_cells_round_trip(p: Seq<Statement>)
    ensures
        list_items(cells_of(p)).reverse() == p,
        list_len(cells_of(p)) == Some(p.len()),
    decreases p.len(),
{
    if p.len() > 0 {
        law_cells_round_trip(p.drop_last());
        let r = list_items(cells_of(p.drop_last()));
        assert(list_items(cells_of(p)) =~= seq![p.last()] + r);
        assert((seq![p.last()] + r).reverse() =~= r.reverse().push(p.last()));
        assert(p.drop_last().push(p.last()) =~= p);
    } else {
        assert(list_items(cells_of(p)).reverse() =~= p);
    }
}

/// A list reads as names exactly when every head is a symbol, and the names
/// are then those of the heads, in order.
pub proof fn law_symbol_list_heads(d: Sourcedata)
    ensures
        symbol_list(d) is Some <==> forall|i: int|
            #![trigger list_items(d)[i]]
            0 <= i < list_items(d).len() ==> list_items(d)[i].1 is Symbol,
        symbol_list(d) matches Some(names) ==> names.len() == list_items(d).len() && forall|i: int|
            #![trigger list_items(d)[i]]
            0 <= i < list_items(d).len() ==> (list_items(d)[i].1 matches Coredata::Symbol(s) && s@
                == names[i]),
    decreases d,
{
    match d.1 {
        Coredata::Cell(h, t) => {
            let rest = pointee(&t);
            law_symbol_list_heads(rest);
            let items = list_items(d);
            assert(items[0] == h);
            assert forall|i: int| 0 < i < items.len() implies #[trigger] items[i] == list_items(
                rest,
            )[i - 1] by {}
            if !(pointee(&h).1 is Symbol) {
                assert(!(items[0].1 is Symbol));
            } else if symbol_list(rest) is None {
                let j = choose|j: int|
                    #![trigger list_items(rest)[j]]
                    0 <= j < list_items(rest).len() && !(list_items(rest)[j].1 is Symbol);
                assert(items[j + 1] == list_items(rest)[j]);
            } else {
                let names = symbol_list(d).unwrap();
                let tail_names = symbol_list(rest).unwrap();
                assert forall|i: int| 0 < i < names.len() implies names[i] == tail_names[i - 1] by {}
            }
        },
        _ => {},
    }
}

} // verus!
