//! The checks on element segments, and the functions they reference.

use vstd::prelude::*;

use crate::errors::TranslateError;
use crate::module::{ElementSegment, ExprItem, SegmentItems, SegmentMode};

verus! {

/// The functions that segments reference, segment after segment.
pub open spec fn collected_functions(segs: Seq<ElementSegment>) -> Seq<u32>
    decreases segs.len(),
{
    if segs.len() == 0 {
        Seq::empty()
    } else {
        collected_functions(segs.drop_last()) + segment_functions(segs.last())
    }
}

/// Whether reading the segments `segs` took `before` to `after`: their functions are added in
/// order and, unless `lenient`, each of them passed its checks.
pub open spec fn accepted_segments(
    segs: Seq<ElementSegment>,
    tables: usize,
    lenient: bool,
    before: Seq<u32>,
    after: Seq<u32>,
) -> bool {
    &&& after == before + collected_functions(segs)
    &&& !lenient ==> forall|i: int| 0 <= i < segs.len() ==> (#[trigger] segment_error(segs[i], tables)) is None
}

/// The error of the first expression from `i` on that yields no function reference or null.
pub open spec fn expr_error_from(items: Seq<ExprItem>, i: int) -> Option<TranslateError>
    decreases items.len() - i,
{
    if i < 0 || i >= items.len() {
        None
    } else {
        match items[i] {
            ExprItem::Unsupported(name) => Some(
                TranslateError::UnsupportedElementExpression { name },
            ),
            ExprItem::Empty => Some(TranslateError::EmptyElementExpression),
            _ => expr_error_from(items, i + 1),
        }
    }
}

/// The functions that the expressions from `i` on reference, in order.
pub open spec fn expr_functions_from(items: Seq<ExprItem>, i: int) -> Seq<u32>
    decreases items.len() - i,
{
    if i < 0 || i >= items.len() {
        Seq::empty()
    } else {
        match items[i] {
            ExprItem::Func(f) => seq![f] + expr_functions_from(items, i + 1),
            _ => expr_functions_from(items, i + 1),
        }
    }
}

/// The functions that a segment references, in order.
pub open spec fn segment_functions(seg: ElementSegment) -> Seq<u32> {
    match seg.items {
        SegmentItems::Functions(fs) => fs@,
        SegmentItems::Expressions(_, items) => expr_functions_from(items@, 0),
    }
}

/// The first function index from `i` on that does not fit an `i32`.
pub open spec fn first_too_large_from(fs: Seq<u32>, i: int) -> Option<u32>
    decreases fs.len() - i,
{
    if i < 0 || i >= fs.len() {
        None
    } else if fs[i] > 0x7fff_ffff {
        Some(fs[i])
    } else {
        first_too_large_from(fs, i + 1)
    }
}

/// Why a segment is rejected in a module with `tables` tables, checked in this order:
/// declared segments, a negative constant offset, expressions of another type than nullable
/// function references, an expression that yields no reference, a function index beyond the
/// `i32` range, and a table the module does not declare.
pub open spec fn segment_error(seg: ElementSegment, tables: usize) -> Option<TranslateError> {
    if seg.mode is Declared {
        Some(TranslateError::DeclaredElements)
    } else if seg.mode matches SegmentMode::Active { offset: Some(c), .. } && c < 0 {
        Some(TranslateError::NegativeElementOffset { offset: seg.mode->offset->0 })
    } else if seg.items matches SegmentItems::Expressions(false, _) {
        Some(TranslateError::NonFuncrefElements)
    } else if seg.items is Expressions && expr_error_from(seg.items->Expressions_1@, 0) is Some {
        expr_error_from(seg.items->Expressions_1@, 0)
    } else if first_too_large_from(segment_functions(seg), 0) is Some {
        Some(
            TranslateError::ElementFunctionIndexTooLarge {
                index: first_too_large_from(segment_functions(seg), 0)->0,
            },
        )
    } else if seg.mode matches SegmentMode::Active { table, .. } && table as int >= tables {
        Some(TranslateError::UnknownElementTable { index: seg.mode->table, tables })
    } else {
        None
    }
}

/// The functions the expressions reference, or the error of the first that yields no
/// reference.
fn expr_functions(items: &Vec<ExprItem>) -> (r: Result<Vec<u32>, TranslateError>)
    ensures
        match expr_error_from(items@, 0) {
            Some(e) => r == Err::<Vec<u32>, TranslateError>(e),
            None => r matches Ok(v) && v@ == expr_functions_from(items@, 0),
        },
{
    let mut out: Vec<u32> = Vec::new();
    let mut i: usize = 0;
    while i < items.len()
        invariant
            i <= items@.len(),
            expr_error_from(items@, 0) == expr_error_from(items@, i as int),
            out@ + expr_functions_from(items@, i as int) == expr_functions_from(items@, 0),
        decreases items@.len() - i,
    {
        match &items[i] {
            ExprItem::Func(f) => {
                let ghost before = out@;
                out.push(*f);
                proof {
                    assert(expr_functions_from(items@, i as int) == seq![*f] + expr_functions_from(
                        items@,
                        i + 1,
                    ));
                    assert(out@ + expr_functions_from(items@, i + 1) =~= before
                        + expr_functions_from(items@, i as int));
                }
            },
            ExprItem::Null => {},
            ExprItem::Unsupported(name) => {
                return Err(TranslateError::UnsupportedElementExpression { name: name.clone() });
            },
            ExprItem::Empty => {
                return Err(TranslateError::EmptyElementExpression);
            },
        }
        i = i + 1;
    }
    Ok(out)
}

/// The first function index of `fs` that does not fit an `i32`.
fn first_too_large(fs: &Vec<u32>) -> (r: Option<u32>)
    ensures
        r == first_too_large_from(fs@, 0),
{
    let mut i: usize = 0;
    while i < fs.len()
        invariant
            i <= fs@.len(),
            first_too_large_from(fs@, 0) == first_too_large_from(fs@, i as int),
        decreases fs@.len() - i,
    {
        if fs[i] > 0x7fff_ffff {
            return Some(fs[i]);
        }
        i = i + 1;
    }
    None
}

/// Checks an element segment of a module with `tables` tables, as [`segment_error`] says, and
/// appends the functions it references to `out`.
pub fn check_element_segment(seg: &ElementSegment, tables: usize, out: &mut Vec<u32>) -> (r: Result<
    (),
    TranslateError,
>)
    ensures
        match segment_error(*seg, tables) {
            Some(e) => r == Err::<(), TranslateError>(e) && final(out)@ == old(out)@,
            None => r is Ok && final(out)@ == old(out)@ + segment_functions(*seg),
        },
{
    if let SegmentMode::Declared = seg.mode {
        return Err(TranslateError::DeclaredElements);
    }
    if let SegmentMode::Active { offset: Some(c), .. } = seg.mode {
        if c < 0 {
            return Err(TranslateError::NegativeElementOffset { offset: c });
        }
    }
    let fs: Vec<u32> = match &seg.items {
        SegmentItems::Functions(fs) => fs.clone(),
        SegmentItems::Expressions(funcref, items) => {
            if !*funcref {
                return Err(TranslateError::NonFuncrefElements);
            }
            expr_functions(items)?
        },
    };
    proof {
        assert(fs@ == segment_functions(*seg));
    }
    if let Some(f) = first_too_large(&fs) {
        return Err(TranslateError::ElementFunctionIndexTooLarge { index: f });
    }
    if let SegmentMode::Active { table, .. } = seg.mode {
        if table as usize >= tables {
            return Err(TranslateError::UnknownElementTable { index: table, tables });
        }
    }
    let mut i: usize = 0;
    let ghost start = out@;
    while i < fs.len()
        invariant
            i <= fs@.len(),
            out@ == start + fs@.subrange(0, i as int),
        decreases fs@.len() - i,
    {
        out.push(fs[i]);
        i = i + 1;
        proof {
            assert(out@ =~= start + fs@.subrange(0, i as int));
        }
    }
    proof {
        assert(fs@.subrange(0, fs@.len() as int) =~= fs@);
    }
    Ok(())
}

/// Appends the functions a segment references to `out`, without checking the segment.
pub fn keep_segment_functions(seg: &ElementSegment, out: &mut Vec<u32>)
    ensures
        final(out)@ == old(out)@ + segment_functions(*seg),
{
    let ghost start = out@;
    match &seg.items {
        SegmentItems::Functions(fs) => {
            let mut i: usize = 0;
            while i < fs.len()
                invariant
                    i <= fs@.len(),
                    out@ == start + fs@.subrange(0, i as int),
                decreases fs@.len() - i,
            {
                out.push(fs[i]);
                i = i + 1;
                proof {
                    assert(out@ =~= start + fs@.subrange(0, i as int));
                }
            }
            proof {
                assert(fs@.subrange(0, fs@.len() as int) =~= fs@);
            }
        },
        SegmentItems::Expressions(_, items) => {
            let mut i: usize = 0;
            while i < items.len()
                invariant
                    i <= items@.len(),
                    out@ + expr_functions_from(items@, i as int) == start + expr_functions_from(
                        items@,
                        0,
                    ),
                decreases items@.len() - i,
            {
                if let ExprItem::Func(f) = &items[i] {
                    let ghost before = out@;
                    out.push(*f);
                    proof {
                        assert(out@ + expr_functions_from(items@, i + 1) =~= before
                            + expr_functions_from(items@, i as int));
                    }
                }
                i = i + 1;
            }
            proof {
                assert(out@ =~= start + expr_functions_from(items@, 0));
            }
        },
    }
}

} // verus!
