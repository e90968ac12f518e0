//! Flood fill over a grid of cells: which clear cells the border reaches.
use vstd::prelude::*;

verus! {

/// The index of cell `(x, y)` in a row-major grid `w` wide.
pub open spec fn cell_index(w: int, x: int, y: int) -> int {
    y * w + x
}

/// `(x, y)` is a cell of the `w` by `h` grid.
pub open spec fn in_cells(w: int, h: int, x: int, y: int) -> bool {
    0 <= x < w && 0 <= y < h
}

/// `(x, y)` is a cell on the border of the grid.
pub open spec fn on_border(w: int, h: int, x: int, y: int) -> bool {
    in_cells(w, h, x, y) && (x == 0 || y == 0 || x == w - 1 || y == h - 1)
}

/// Cell `(x, y)` is marked clear.
pub open spec fn is_clear(clear: Seq<bool>, w: int, x: int, y: int) -> bool {
    clear[cell_index(w, x, y)]
}

/// The cells `a` and `b` share a side.
pub open spec fn side_by_side(a: (int, int), b: (int, int)) -> bool {
    (a.0 == b.0 && (a.1 == b.1 + 1 || b.1 == a.1 + 1)) || (a.1 == b.1 && (a.0 == b.0 + 1 || b.0
        == a.0 + 1))
}

/// `path` starts on the border and steps from side to side through clear cells only.
pub open spec fn clear_path(clear: Seq<bool>, w: int, h: int, path: Seq<(int, int)>) -> bool {
    &&& path.len() > 0
    &&& on_border(w, h, path[0].0, path[0].1)
    &&& forall|k: int|
        0 <= k < path.len() ==> in_cells(w, h, (#[trigger] path[k]).0, path[k].1) && is_clear(
            clear,
            w,
            path[k].0,
            path[k].1,
        )
    &&& forall|k: int| 0 <= k < path.len() - 1 ==> side_by_side(#[trigger] path[k], path[k + 1])
}

/// Cell `(x, y)` is joined to the border through clear cells, sides touching.
pub open spec fn reaches_border(clear: Seq<bool>, w: int, h: int, x: int, y: int) -> bool {
    exists|path: Seq<(int, int)>| #[trigger]
        clear_path(clear, w, h, path) && path.last() == (x, y)
}

/// The number of `true` entries.
pub open spec fn count_true(s: Seq<bool>) -> nat
    decreases s.len(),
{
    if s.len() == 0 {
        0
    } else {
        count_true(s.drop_last()) + if s.last() {
            1nat
        } else {
            0nat
        }
    }
}

proof fn lemma_count_true_bound(s: Seq<bool>)
    ensures
        count_true(s) <= s.len(),
    decreases s.len(),
{
    if s.len() > 0 {
        lemma_count_true_bound(s.drop_last());
    }
}

proof fn lemma_count_none(s: Seq<bool>)
    requires
        forall|j: int| 0 <= j < s.len() ==> !(#[trigger] s[j]),
    ensures
        count_true(s) == 0,
    decreases s.len(),
{
    if s.len() > 0 {
        lemma_count_none(s.drop_last());
    }
}

proof fn lemma_count_true_set(s: Seq<bool>, i: int)
    requires
        0 <= i < s.len(),
        !s[i],
    ensures
        count_true(s.update(i, true)) == count_true(s) + 1,
    decreases s.len(),
{
    let t = s.update(i, true);
    if i < s.len() - 1 {
        assert(t.drop_last() =~= s.drop_last().update(i, true));
        lemma_count_true_set(s.drop_last(), i);
    } else {
        assert(t.drop_last() =~= s.drop_last());
    }
}

/// A cell is settled: marked outer, not clear, or waiting on the stack.
pub open spec fn settled(
    clear: Seq<bool>,
    outer: Seq<bool>,
    stack: Seq<(usize, usize)>,
    w: int,
    x: int,
    y: int,
) -> bool {
    outer[cell_index(w, x, y)] || !clear[cell_index(w, x, y)] || on_stack(stack, x, y)
}

/// The cell `(x, y)` is an entry of `stack`.
pub open spec fn on_stack(stack: Seq<(usize, usize)>, x: int, y: int) -> bool {
    exists|k: int| 0 <= k < stack.len() && #[trigger] stack[k] == (x as usize, y as usize)
}

/// Pushing keeps every entry, and adds the one pushed.
proof fn lemma_on_stack_push(stack: Seq<(usize, usize)>, e: (usize, usize), x: int, y: int)
    ensures
        on_stack(stack, x, y) ==> on_stack(stack.push(e), x, y),
        e == (x as usize, y as usize) ==> on_stack(stack.push(e), x, y),
{
    let t = stack.push(e);
    if on_stack(stack, x, y) {
        let k = choose|k: int| 0 <= k < stack.len() && #[trigger] stack[k] == (x as usize, y as usize);
        assert(t[k] == stack[k]);
    }
    if e == (x as usize, y as usize) {
        assert(t[stack.len() as int] == e);
    }
}

/// Each side neighbour of every outer cell is settled.
pub open spec fn closed(
    clear: Seq<bool>,
    outer: Seq<bool>,
    stack: Seq<(usize, usize)>,
    w: int,
    h: int,
) -> bool {
    forall|x: int, y: int|
        #![trigger outer[cell_index(w, x, y)]]
        in_cells(w, h, x, y) && outer[cell_index(w, x, y)] ==> (x > 0 ==> settled(
            clear,
            outer,
            stack,
            w,
            x - 1,
            y,
        )) && (x + 1 < w ==> settled(clear, outer, stack, w, x + 1, y)) && (y > 0 ==> settled(
            clear,
            outer,
            stack,
            w,
            x,
            y - 1,
        )) && (y + 1 < h ==> settled(clear, outer, stack, w, x, y + 1))
}

/// Cell indices stay within the grid.
pub proof fn lemma_cell_index(w: int, h: int, x: int, y: int)
    requires
        in_cells(w, h, x, y),
    ensures
        0 <= cell_index(w, x, y) < w * h,
{
    assert(0 <= y * w + x < w * h) by (nonlinear_arith)
        requires 0 <= x < w, 0 <= y < h;
}

/// Once the stack is empty and every cell settled, each clear path is marked outer.
proof fn lemma_path_outer(
    clear: Seq<bool>,
    outer: Seq<bool>,
    w: int,
    h: int,
    path: Seq<(int, int)>,
    k: int,
)
    requires
        clear_path(clear, w, h, path),
        0 <= k < path.len(),
        closed(clear, outer, Seq::empty(), w, h),
        forall|x: int, y: int| #[trigger]
            on_border(w, h, x, y) ==> settled(clear, outer, Seq::empty(), w, x, y),
    ensures
        outer[cell_index(w, path[k].0, path[k].1)],
    decreases k,
{
    let c = path[k];
    assert(in_cells(w, h, c.0, c.1));
    if k == 0 {
        assert(on_border(w, h, c.0, c.1));
    } else {
        lemma_path_outer(clear, outer, w, h, path, k - 1);
        let p = path[k - 1];
        assert(side_by_side(path[k - 1], path[k]));
        assert(in_cells(w, h, p.0, p.1));
        assert(outer[cell_index(w, p.0, p.1)]);
    }
}

/// Marks the clear cells that the border reaches through clear cells, sides touching;
/// the search keeps its own stack and visits each cell at most once.
pub fn outer_cells(clear: &Vec<bool>, w: usize, h: usize) -> (r: Vec<bool>)
    requires
        clear@.len() == w * h,
    ensures
        r@.len() == w * h,
        forall|x: int, y: int|
            in_cells(w as int, h as int, x, y) ==> r@[cell_index(w as int, x, y)]
                == #[trigger] reaches_border(clear@, w as int, h as int, x, y),
{
    let n = clear.len();
    let ghost gw = w as int;
    let ghost gh = h as int;
    let mut outer: Vec<bool> = Vec::new();
    let mut i: usize = 0;
    while i < n
        invariant
            0 <= i <= n,
            outer@.len() == i,
            forall|j: int| 0 <= j < i ==> !(#[trigger] outer@[j]),
        decreases n - i,
    {
        outer.push(false);
        i = i + 1;
    }
    proof {
        lemma_count_none(outer@);
    }
    // Every border cell starts on the stack.
    let mut stack: Vec<(usize, usize)> = Vec::new();
    let mut x: usize = 0;
    while x < w
        invariant
            0 <= x <= w,
            gw == w,
            gh == h,
            n == w * h,
            outer@.len() == n,
            count_true(outer@) == 0,
            forall|j: int| 0 <= j < n ==> !(#[trigger] outer@[j]),
            forall|k: int|
                0 <= k < stack@.len() ==> on_border(gw, gh, (#[trigger] stack@[k]).0 as int, stack@[k].1 as int),
            forall|a: int, b: int|
                #![trigger on_border(gw, gh, a, b)]
                on_border(gw, gh, a, b) && (b == 0 || b == gh - 1) && a < x ==> on_stack(stack@, a, b),
        decreases w - x,
    {
        if h > 0 {
            let ghost s0 = stack@;
            stack.push((x, 0));
            let ghost s1 = stack@;
            stack.push((x, h - 1));
            proof {
                assert forall|a: int, b: int|
                    #![trigger on_border(gw, gh, a, b)]
                    on_border(gw, gh, a, b) && (b == 0 || b == gh - 1) && a < x + 1 implies on_stack(stack@, a, b) by {
                    lemma_on_stack_push(s0, (x, 0), a, b);
                    lemma_on_stack_push(s1, (x, (h - 1) as usize), a, b);
                }
                assert forall|k: int|
                    0 <= k < stack@.len() implies on_border(gw, gh, (#[trigger] stack@[k]).0 as int, stack@[k].1 as int) by {
                    if k < s0.len() {
                        assert(stack@[k] == s0[k]);
                    }
                }
            }
        }
        x = x + 1;
    }
    let mut y: usize = 0;
    while y < h
        invariant
            0 <= y <= h,
            gw == w,
            gh == h,
            n == w * h,
            outer@.len() == n,
            count_true(outer@) == 0,
            forall|j: int| 0 <= j < n ==> !(#[trigger] outer@[j]),
            forall|k: int|
                0 <= k < stack@.len() ==> on_border(gw, gh, (#[trigger] stack@[k]).0 as int, stack@[k].1 as int),
            forall|a: int, b: int|
                #![trigger on_border(gw, gh, a, b)]
                on_border(gw, gh, a, b) && (b == 0 || b == gh - 1 || ((a == 0 || a == gw - 1) && b < y))
                    ==> on_stack(stack@, a, b),
        decreases h - y,
    {
        if w > 0 {
            let ghost s0 = stack@;
            stack.push((0, y));
            let ghost s1 = stack@;
            stack.push((w - 1, y));
            proof {
                assert forall|a: int, b: int|
                    #![trigger on_border(gw, gh, a, b)]
                    on_border(gw, gh, a, b) && (b == 0 || b == gh - 1 || ((a == 0 || a == gw - 1) && b < y + 1))
                    implies on_stack(stack@, a, b) by {
                    lemma_on_stack_push(s0, (0, y), a, b);
                    lemma_on_stack_push(s1, ((w - 1) as usize, y), a, b);
                }
                assert forall|k: int|
                    0 <= k < stack@.len() implies on_border(gw, gh, (#[trigger] stack@[k]).0 as int, stack@[k].1 as int) by {
                    if k < s0.len() {
                        assert(stack@[k] == s0[k]);
                    }
                }
            }
        }
        y = y + 1;
    }
    proof {
        assert forall|a: int, b: int| #[trigger]
            on_border(gw, gh, a, b) implies settled(clear@, outer@, stack@, gw, a, b) by {}
        assert forall|a: int, b: int|
            #![trigger outer@[cell_index(gw, a, b)]]
            in_cells(gw, gh, a, b) implies !outer@[cell_index(gw, a, b)] by {
            lemma_cell_index(gw, gh, a, b);
        }
    }
    let ghost mut marked: nat = 0;
    proof {
        assert(search_inv(clear@, outer@, stack@, gw, gh));
    }
    loop
        invariant
            gw == w,
            gh == h,
            n == w * h,
            clear@.len() == n,
            outer@.len() == n,
            marked == count_true(outer@),
            search_inv(clear@, outer@, stack@, gw, gh),
        ensures
            stack@.len() == 0,
            search_inv(clear@, outer@, stack@, gw, gh),
        decreases 4 * (n - marked) + stack@.len(),
    {
        proof {
            lemma_count_true_bound(outer@);
        }
        let ghost before = stack@;
        let top = stack.pop();
        match top {
            None => {
                break;
            },
            Some(cell) => {
                let (cx, cy) = cell;
                proof {
                    assert(before == stack@.push(cell));
                    assert(before[before.len() - 1] == cell);
                    assert(in_cells(gw, gh, cx as int, cy as int));
                    lemma_cell_index(gw, gh, cx as int, cy as int);
                    assert(cy * w <= cy * w + cx) by (nonlinear_arith);
                }
                let ci = cy * w + cx;
                if outer[ci] || !clear[ci] {
                    proof {
                        lemma_drop_step(clear@, outer@, stack@, cell, gw, gh);
                    }
                } else {
                    let ghost old_outer = outer@;
                    proof {
                        lemma_count_true_set(outer@, ci as int);
                    }
                    outer.set(ci, true);
                    proof {
                        marked = marked + 1;
                        lemma_count_true_bound(outer@);
                    }
                    let ghost mid = stack@;
                    push_neighbours(&mut stack, cx, cy, w, h);
                    proof {
                        let s4 = stack@;
                        lemma_mark_step(clear@, old_outer, mid, cell, s4, gw, gh);
                    }
                }
            },
        }
    }
    proof {
        assert(stack@.len() == 0);
        assert(stack@ =~= Seq::<(usize, usize)>::empty());
        assert forall|x: int, y: int| in_cells(gw, gh, x, y) implies outer@[cell_index(gw, x, y)]
            == #[trigger] reaches_border(clear@, gw, gh, x, y) by {
            if reaches_border(clear@, gw, gh, x, y) {
                let path = choose|path: Seq<(int, int)>| #[trigger]
                    clear_path(clear@, gw, gh, path) && path.last() == (x, y);
                lemma_path_outer(clear@, outer@, gw, gh, path, path.len() - 1);
            }
        }
    }
    outer
}

/// Pushes the cells beside `(cx, cy)` that lie within the grid.
fn push_neighbours(stack: &mut Vec<(usize, usize)>, cx: usize, cy: usize, w: usize, h: usize)
    requires
        cx < w,
        cy < h,
    ensures
        old(stack)@.len() <= final(stack)@.len() <= old(stack)@.len() + 4,
        final(stack)@.subrange(0, old(stack)@.len() as int) == old(stack)@,
        forall|k: int|
            old(stack)@.len() <= k < final(stack)@.len() ==> in_cells(w as int, h as int, (#[trigger] final(stack)@[k]).0 as int, final(stack)@[k].1 as int)
                && side_by_side((cx as int, cy as int), (final(stack)@[k].0 as int, final(stack)@[k].1 as int)),
        cx > 0 ==> on_stack(final(stack)@, cx - 1, cy as int),
        cx + 1 < w ==> on_stack(final(stack)@, cx + 1, cy as int),
        cy > 0 ==> on_stack(final(stack)@, cx as int, cy - 1),
        cy + 1 < h ==> on_stack(final(stack)@, cx as int, cy + 1),
{
    let ghost s0 = stack@;
    if cx > 0 {
        stack.push((cx - 1, cy));
    }
    let ghost s1 = stack@;
    if cx + 1 < w {
        stack.push((cx + 1, cy));
    }
    let ghost s2 = stack@;
    if cy > 0 {
        stack.push((cx, cy - 1));
    }
    let ghost s3 = stack@;
    if cy + 1 < h {
        stack.push((cx, cy + 1));
    }
    proof {
        let s4 = stack@;
        assert(s4.subrange(0, s0.len() as int) =~= s0);
        assert(cx > 0 ==> s4[s1.len() - 1] == ((cx - 1) as usize, cy));
        assert(cx + 1 < w ==> s4[s2.len() - 1] == ((cx + 1) as usize, cy));
        assert(cy > 0 ==> s4[s3.len() - 1] == (cx, (cy - 1) as usize));
        assert(cy + 1 < h ==> s4[s4.len() - 1] == (cx, (cy + 1) as usize));
        if cx > 0 {
            lemma_on_stack_at(s4, s1.len() - 1, cx - 1, cy as int);
        }
        if cx + 1 < w {
            lemma_on_stack_at(s4, s2.len() - 1, cx + 1, cy as int);
        }
        if cy > 0 {
            lemma_on_stack_at(s4, s3.len() - 1, cx as int, cy - 1);
        }
        if cy + 1 < h {
            lemma_on_stack_at(s4, s4.len() - 1, cx as int, cy + 1);
        }
        assert forall|k: int| s0.len() <= k < s4.len() implies in_cells(w as int, h as int, (#[trigger] s4[k]).0 as int, s4[k].1 as int)
            && side_by_side((cx as int, cy as int), (s4[k].0 as int, s4[k].1 as int)) by {
            if k < s1.len() {
                assert(s4[k] == s1[k]);
            } else if k < s2.len() {
                assert(s4[k] == s2[k]);
            } else if k < s3.len() {
                assert(s4[k] == s3[k]);
            }
        }
    }
}

/// What the search keeps true: the stack holds cells on the border or beside an outer
/// cell; outer cells are clear and reached; the neighbours of outer cells and the
/// border cells are settled.
pub open spec fn search_inv(
    clear: Seq<bool>,
    outer: Seq<bool>,
    stack: Seq<(usize, usize)>,
    w: int,
    h: int,
) -> bool {
    &&& 0 <= w <= usize::MAX
    &&& 0 <= h <= usize::MAX
    &&& clear.len() == w * h
    &&& outer.len() == w * h
    &&& forall|k: int|
        0 <= k < stack.len() ==> in_cells(w, h, (#[trigger] stack[k]).0 as int, stack[k].1 as int)
            && (on_border(w, h, stack[k].0 as int, stack[k].1 as int) || exists|a: int, b: int|
            #![trigger outer[cell_index(w, a, b)]]
            in_cells(w, h, a, b) && outer[cell_index(w, a, b)] && side_by_side(
                (a, b),
                (stack[k].0 as int, stack[k].1 as int),
            ))
    &&& forall|a: int, b: int|
        #![trigger outer[cell_index(w, a, b)]]
        in_cells(w, h, a, b) && outer[cell_index(w, a, b)] ==> is_clear(clear, w, a, b)
            && reaches_border(clear, w, h, a, b)
    &&& closed(clear, outer, stack, w, h)
    &&& forall|a: int, b: int| #[trigger]
        on_border(w, h, a, b) ==> settled(clear, outer, stack, w, a, b)
}

/// Dropping a settled cell from the top of the stack keeps the search's invariant.
proof fn lemma_drop_step(
    clear: Seq<bool>,
    outer: Seq<bool>,
    rest: Seq<(usize, usize)>,
    top: (usize, usize),
    w: int,
    h: int,
)
    requires
        search_inv(clear, outer, rest.push(top), w, h),
        in_cells(w, h, top.0 as int, top.1 as int),
        outer[cell_index(w, top.0 as int, top.1 as int)] || !clear[cell_index(w, top.0 as int, top.1 as int)],
    ensures
        search_inv(clear, outer, rest, w, h),
{
    let full = rest.push(top);
    assert forall|k: int|
        0 <= k < rest.len() implies in_cells(w, h, (#[trigger] rest[k]).0 as int, rest[k].1 as int)
            && (on_border(w, h, rest[k].0 as int, rest[k].1 as int) || exists|a: int, b: int|
            #![trigger outer[cell_index(w, a, b)]]
            in_cells(w, h, a, b) && outer[cell_index(w, a, b)] && side_by_side(
                (a, b),
                (rest[k].0 as int, rest[k].1 as int),
            )) by {
        assert(rest[k] == full[k]);
    }
    assert forall|a: int, b: int|
        #![trigger outer[cell_index(w, a, b)]]
        in_cells(w, h, a, b) && outer[cell_index(w, a, b)] implies (a > 0 ==> settled(clear, outer, rest, w, a - 1, b))
            && (a + 1 < w ==> settled(clear, outer, rest, w, a + 1, b))
            && (b > 0 ==> settled(clear, outer, rest, w, a, b - 1))
            && (b + 1 < h ==> settled(clear, outer, rest, w, a, b + 1)) by {
        if a > 0 {
            lemma_settled_pop(clear, outer, rest, top, w, h, a - 1, b);
        }
        if a + 1 < w {
            lemma_settled_pop(clear, outer, rest, top, w, h, a + 1, b);
        }
        if b > 0 {
            lemma_settled_pop(clear, outer, rest, top, w, h, a, b - 1);
        }
        if b + 1 < h {
            lemma_settled_pop(clear, outer, rest, top, w, h, a, b + 1);
        }
    }
    assert forall|a: int, b: int| #[trigger]
        on_border(w, h, a, b) implies settled(clear, outer, rest, w, a, b) by {
        lemma_settled_pop(clear, outer, rest, top, w, h, a, b);
    }
}

/// Marking the top cell outer and pushing its neighbours keeps the search's invariant.
proof fn lemma_mark_step(
    clear: Seq<bool>,
    outer: Seq<bool>,
    rest: Seq<(usize, usize)>,
    top: (usize, usize),
    next: Seq<(usize, usize)>,
    w: int,
    h: int,
)
    requires
        search_inv(clear, outer, rest.push(top), w, h),
        in_cells(w, h, top.0 as int, top.1 as int),
        !outer[cell_index(w, top.0 as int, top.1 as int)],
        clear[cell_index(w, top.0 as int, top.1 as int)],
        rest.len() <= next.len(),
        next.subrange(0, rest.len() as int) == rest,
        forall|k: int|
            rest.len() <= k < next.len() ==> in_cells(w, h, (#[trigger] next[k]).0 as int, next[k].1 as int)
                && side_by_side((top.0 as int, top.1 as int), (next[k].0 as int, next[k].1 as int)),
        top.0 > 0 ==> on_stack(next, top.0 - 1, top.1 as int),
        top.0 + 1 < w ==> on_stack(next, top.0 + 1, top.1 as int),
        top.1 > 0 ==> on_stack(next, top.0 as int, top.1 - 1),
        top.1 + 1 < h ==> on_stack(next, top.0 as int, top.1 + 1),
    ensures
        search_inv(clear, outer.update(cell_index(w, top.0 as int, top.1 as int), true), next, w, h),
{
    let full = rest.push(top);
    let c = (top.0 as int, top.1 as int);
    let ci = cell_index(w, c.0, c.1);
    let grown = outer.update(ci, true);
    lemma_cell_index(w, h, c.0, c.1);
    // The top cell is reached: from the border, or through an outer neighbour.
    assert(full[full.len() - 1] == top);
    if !on_border(w, h, c.0, c.1) {
        let (a, b) = choose|a: int, b: int|
            #![trigger outer[cell_index(w, a, b)]]
            in_cells(w, h, a, b) && outer[cell_index(w, a, b)] && side_by_side((a, b), c);
        assert(reaches_border(clear, w, h, a, b));
        let path = choose|path: Seq<(int, int)>| #[trigger]
            clear_path(clear, w, h, path) && path.last() == (a, b);
        let longer = path.push(c);
        assert forall|k: int| 0 <= k < longer.len() - 1 implies side_by_side(
            #[trigger] longer[k],
            longer[k + 1],
        ) by {
            if k < path.len() - 1 {
                assert(longer[k] == path[k] && longer[k + 1] == path[k + 1]);
            }
        }
        assert forall|k: int| 0 <= k < longer.len() implies in_cells(w, h, (#[trigger] longer[k]).0, longer[k].1)
            && is_clear(clear, w, longer[k].0, longer[k].1) by {
            if k < path.len() {
                assert(longer[k] == path[k]);
            }
        }
        assert(clear_path(clear, w, h, longer));
        assert(longer.last() == c);
    } else {
        let path = seq![c];
        assert(clear_path(clear, w, h, path));
    }
    assert(reaches_border(clear, w, h, c.0, c.1));
    assert forall|k: int|
        0 <= k < next.len() implies in_cells(w, h, (#[trigger] next[k]).0 as int, next[k].1 as int)
            && (on_border(w, h, next[k].0 as int, next[k].1 as int) || exists|a: int, b: int|
            #![trigger grown[cell_index(w, a, b)]]
            in_cells(w, h, a, b) && grown[cell_index(w, a, b)] && side_by_side(
                (a, b),
                (next[k].0 as int, next[k].1 as int),
            )) by {
        if k < rest.len() {
            assert(next[k] == next.subrange(0, rest.len() as int)[k]);
            assert(next[k] == full[k]);
            if !on_border(w, h, next[k].0 as int, next[k].1 as int) {
                let (a, b) = choose|a: int, b: int|
                    #![trigger outer[cell_index(w, a, b)]]
                    in_cells(w, h, a, b) && outer[cell_index(w, a, b)] && side_by_side(
                        (a, b),
                        (full[k].0 as int, full[k].1 as int),
                    );
                lemma_cell_index(w, h, a, b);
                assert(grown[cell_index(w, a, b)]);
            }
        } else {
            assert(grown[cell_index(w, c.0, c.1)]);
        }
    }
    assert forall|a: int, b: int|
        #![trigger grown[cell_index(w, a, b)]]
        in_cells(w, h, a, b) && grown[cell_index(w, a, b)] implies is_clear(clear, w, a, b)
            && reaches_border(clear, w, h, a, b) by {
        lemma_cell_index_injective(w, h, a, b, c.0, c.1);
        lemma_cell_index(w, h, a, b);
    }
    assert forall|a: int, b: int|
        #![trigger grown[cell_index(w, a, b)]]
        in_cells(w, h, a, b) && grown[cell_index(w, a, b)] implies (a > 0 ==> settled(clear, grown, next, w, a - 1, b))
            && (a + 1 < w ==> settled(clear, grown, next, w, a + 1, b))
            && (b > 0 ==> settled(clear, grown, next, w, a, b - 1))
            && (b + 1 < h ==> settled(clear, grown, next, w, a, b + 1)) by {
        lemma_cell_index_injective(w, h, a, b, c.0, c.1);
        lemma_cell_index(w, h, a, b);
        if (a, b) != c {
            assert(outer[cell_index(w, a, b)]);
            if a > 0 {
                lemma_settled_grow(clear, outer, rest, top, next, w, h, a - 1, b);
            }
            if a + 1 < w {
                lemma_settled_grow(clear, outer, rest, top, next, w, h, a + 1, b);
            }
            if b > 0 {
                lemma_settled_grow(clear, outer, rest, top, next, w, h, a, b - 1);
            }
            if b + 1 < h {
                lemma_settled_grow(clear, outer, rest, top, next, w, h, a, b + 1);
            }
        }
    }
    assert(closed(clear, grown, next, w, h));
    assert forall|a: int, b: int| #[trigger]
        on_border(w, h, a, b) implies settled(clear, grown, next, w, a, b) by {
        lemma_settled_grow(clear, outer, rest, top, next, w, h, a, b);
    }
}

/// An entry at a known index is on the stack.
proof fn lemma_on_stack_at(stack: Seq<(usize, usize)>, k: int, x: int, y: int)
    requires
        0 <= k < stack.len(),
        stack[k] == (x as usize, y as usize),
    ensures
        on_stack(stack, x, y),
{
}

/// Distinct cells have distinct indices.
pub proof fn lemma_cell_index_injective(w: int, h: int, a: int, b: int, x: int, y: int)
    requires
        in_cells(w, h, a, b),
        in_cells(w, h, x, y),
    ensures
        cell_index(w, a, b) == cell_index(w, x, y) <==> (a == x && b == y),
{
    if cell_index(w, a, b) == cell_index(w, x, y) {
        vstd::arithmetic::div_mod::lemma_fundamental_div_mod_converse(b * w + a, w, b, a);
        vstd::arithmetic::div_mod::lemma_fundamental_div_mod_converse(y * w + x, w, y, x);
    }
}

/// Marking the top of the stack outer and pushing cells on what is left keeps every
/// settled cell settled.
proof fn lemma_settled_grow(
    clear: Seq<bool>,
    outer: Seq<bool>,
    mid: Seq<(usize, usize)>,
    top: (usize, usize),
    next: Seq<(usize, usize)>,
    w: int,
    h: int,
    x: int,
    y: int,
)
    requires
        in_cells(w, h, top.0 as int, top.1 as int),
        outer.len() == w * h,
        settled(clear, outer, mid.push(top), w, x, y),
        mid.len() <= next.len(),
        next.subrange(0, mid.len() as int) == mid,
        in_cells(w, h, x, y),
        w <= usize::MAX,
        h <= usize::MAX,
    ensures
        settled(
            clear,
            outer.update(cell_index(w, top.0 as int, top.1 as int), true),
            next,
            w,
            x,
            y,
        ),
{
    let grown = outer.update(cell_index(w, top.0 as int, top.1 as int), true);
    lemma_cell_index(w, h, top.0 as int, top.1 as int);
    lemma_cell_index(w, h, x, y);
    let full = mid.push(top);
    if outer[cell_index(w, x, y)] {
        assert(grown[cell_index(w, x, y)]);
    } else if clear[cell_index(w, x, y)] {
        let k = choose|k: int| 0 <= k < full.len() && #[trigger] full[k] == (x as usize, y as usize);
        if k < mid.len() {
            assert(next[k] == next.subrange(0, mid.len() as int)[k]);
            assert(next[k] == full[k]);
        } else {
            assert(x as usize == top.0 && y as usize == top.1);
            assert(grown[cell_index(w, x, y)]);
        }
    }
}

/// Dropping a settled cell from the top of the stack keeps every cell settled.
proof fn lemma_settled_pop(
    clear: Seq<bool>,
    outer: Seq<bool>,
    rest: Seq<(usize, usize)>,
    top: (usize, usize),
    w: int,
    h: int,
    x: int,
    y: int,
)
    requires
        outer[cell_index(w, top.0 as int, top.1 as int)] || !clear[cell_index(w, top.0 as int, top.1 as int)],
        settled(clear, outer, rest.push(top), w, x, y),
        in_cells(w, h, x, y),
        w <= usize::MAX,
        h <= usize::MAX,
    ensures
        settled(clear, outer, rest, w, x, y),
{
    let full = rest.push(top);
    if !(outer[cell_index(w, x, y)] || !clear[cell_index(w, x, y)]) {
        let k = choose|k: int| 0 <= k < full.len() && #[trigger] full[k] == (x as usize, y as usize);
        if k < rest.len() {
            assert(rest[k] == full[k]);
        } else {
            assert(full[k] == top);
            assert(x as usize == top.0 && y as usize == top.1);
        }
    }
}

} // verus!
