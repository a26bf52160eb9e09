use vstd::prelude::*;

verus! {

/// Sign of a displacement component.
pub open spec fn spec_sgn(x: int) -> int {
    if x > 0 {
        1
    } else if x < 0 {
        -1
    } else {
        0
    }
}

/// Absolute value of a displacement component.
pub open spec fn spec_abs(x: int) -> int {
    if x >= 0 {
        x
    } else {
        -x
    }
}

/// Remaining crossing events of the traversal; drives termination.
pub open spec fn walk_fuel(adr: int, adc: int, kr: int, kc: int) -> int {
    (if kr < adr {
        adr - kr
    } else {
        0
    }) + (if kc < adc {
        adc - kc
    } else {
        0
    })
}

/// Cells crossed by the straight segment between cell centers, after
/// `kr` row-boundary and `kc` column-boundary crossings, starting from
/// cell `(r, c)` and stepping by `(sr, sc)`. The next boundary on each
/// axis is compared by cross-multiplied crossing times; an exact corner
/// tie conservatively emits both side cells before the diagonal cell.
pub open spec fn walk_cells(
    adr: int,
    adc: int,
    kr: int,
    kc: int,
    r: int,
    c: int,
    sr: int,
    sc: int,
) -> Seq<(int, int)>
    decreases walk_fuel(adr, adc, kr, kc),
{
    if kr >= adr && kc >= adc {
        Seq::empty()
    } else if kc < adc && (kr >= adr || (2 * kc + 1) * adr < (2 * kr + 1) * adc) {
        seq![(r, c + sc)] + walk_cells(adr, adc, kr, kc + 1, r, c + sc, sr, sc)
    } else if kr < adr && (kc >= adc || (2 * kr + 1) * adc < (2 * kc + 1) * adr) {
        seq![(r + sr, c)] + walk_cells(adr, adc, kr + 1, kc, r + sr, c, sr, sc)
    } else {
        seq![(r, c + sc), (r + sr, c), (r + sr, c + sc)] + walk_cells(
            adr,
            adc,
            kr + 1,
            kc + 1,
            r + sr,
            c + sc,
            sr,
            sc,
        )
    }
}

/// The crossed cells of a move from `(r0, c0)` by `(dr, dc)`, in travel
/// order, the start cell excluded and the destination cell included.
pub open spec fn spec_crossed(r0: int, c0: int, dr: int, dc: int) -> Seq<(int, int)> {
    walk_cells(spec_abs(dr), spec_abs(dc), 0, 0, r0, c0, spec_sgn(dr), spec_sgn(dc))
}

/// Integer-pair view of an executable cell list.
pub open spec fn cells_view(s: Seq<(i32, i32)>) -> Seq<(int, int)> {
    s.map_values(|p: (i32, i32)| (p.0 as int, p.1 as int))
}

/// Every crossed cell lies in the axis-aligned box spanned by the
/// current cell and the destination cell.
pub proof fn lemma_walk_in_box(adr: int, adc: int, kr: int, kc: int, r: int, c: int, sr: int, sc: int)
    requires
        0 <= kr <= adr,
        0 <= kc <= adc,
        -1 <= sr <= 1,
        -1 <= sc <= 1,
    ensures
        forall|j: int|
            0 <= j < walk_cells(adr, adc, kr, kc, r, c, sr, sc).len() ==> {
                let e = #[trigger] walk_cells(adr, adc, kr, kc, r, c, sr, sc)[j];
                &&& (e.0 == r || (sr == 1 && r < e.0 <= r + (adr - kr)) || (sr == -1 && r - (adr
                    - kr) <= e.0 < r))
                &&& (e.1 == c || (sc == 1 && c < e.1 <= c + (adc - kc)) || (sc == -1 && c - (adc
                    - kc) <= e.1 < c))
            },
    decreases walk_fuel(adr, adc, kr, kc),
{
    let cur = walk_cells(adr, adc, kr, kc, r, c, sr, sc);
    if kr >= adr && kc >= adc {
    } else if kc < adc && (kr >= adr || (2 * kc + 1) * adr < (2 * kr + 1) * adc) {
        lemma_walk_in_box(adr, adc, kr, kc + 1, r, c + sc, sr, sc);
        let rest = walk_cells(adr, adc, kr, kc + 1, r, c + sc, sr, sc);
        assert forall|j: int| 0 <= j < cur.len() implies {
            let e = #[trigger] cur[j];
            &&& (e.0 == r || (sr == 1 && r < e.0 <= r + (adr - kr)) || (sr == -1 && r - (adr - kr)
                <= e.0 < r))
            &&& (e.1 == c || (sc == 1 && c < e.1 <= c + (adc - kc)) || (sc == -1 && c - (adc - kc)
                <= e.1 < c))
        } by {
            if j > 0 {
                assert(cur[j] == rest[j - 1]);
            }
        }
    } else if kr < adr && (kc >= adc || (2 * kr + 1) * adc < (2 * kc + 1) * adr) {
        lemma_walk_in_box(adr, adc, kr + 1, kc, r + sr, c, sr, sc);
        let rest = walk_cells(adr, adc, kr + 1, kc, r + sr, c, sr, sc);
        assert forall|j: int| 0 <= j < cur.len() implies {
            let e = #[trigger] cur[j];
            &&& (e.0 == r || (sr == 1 && r < e.0 <= r + (adr - kr)) || (sr == -1 && r - (adr - kr)
                <= e.0 < r))
            &&& (e.1 == c || (sc == 1 && c < e.1 <= c + (adc - kc)) || (sc == -1 && c - (adc - kc)
                <= e.1 < c))
        } by {
            if j > 0 {
                assert(cur[j] == rest[j - 1]);
            }
        }
    } else {
        lemma_walk_in_box(adr, adc, kr + 1, kc + 1, r + sr, c + sc, sr, sc);
        let rest = walk_cells(adr, adc, kr + 1, kc + 1, r + sr, c + sc, sr, sc);
        assert forall|j: int| 0 <= j < cur.len() implies {
            let e = #[trigger] cur[j];
            &&& (e.0 == r || (sr == 1 && r < e.0 <= r + (adr - kr)) || (sr == -1 && r - (adr - kr)
                <= e.0 < r))
            &&& (e.1 == c || (sc == 1 && c < e.1 <= c + (adc - kc)) || (sc == -1 && c - (adc - kc)
                <= e.1 < c))
        } by {
            if j > 2 {
                assert(cur[j] == rest[j - 3]);
            }
        }
    }
}

proof fn lemma_reverse_cons(x: (int, int), s: Seq<(int, int)>)
    ensures
        (seq![x] + s).reverse() == s.reverse() + seq![x],
{
    assert((seq![x] + s).reverse() =~= s.reverse() + seq![x]);
}

/// One traversal invariant step of the reversal argument: the full
/// backward path already emitted (reversed) followed by the forward path
/// still to come is the same sequence at every point of the walk.
proof fn lemma_walk_rev_step(
    adr: int,
    adc: int,
    kr: int,
    kc: int,
    r: int,
    c: int,
    sr: int,
    sc: int,
    r1: int,
    c1: int,
)
    requires
        0 <= kr <= adr,
        0 <= kc <= adc,
        r1 == r + sr * (adr - kr),
        c1 == c + sc * (adc - kc),
        kr == 0 || kc >= adc || (2 * kr - 1) * adc < (2 * kc + 1) * adr,
        kc == 0 || kr >= adr || (2 * kc - 1) * adr < (2 * kr + 1) * adc,
    ensures
        (seq![(r, c)] + walk_cells(adr, adc, adr - kr, adc - kc, r, c, -sr, -sc)).reverse()
            + walk_cells(adr, adc, kr, kc, r, c, sr, sc) == (seq![(r1, c1)] + walk_cells(
            adr,
            adc,
            0,
            0,
            r1,
            c1,
            -sr,
            -sc,
        )).reverse(),
    decreases walk_fuel(adr, adc, kr, kc),
{
    let wf_cur = walk_cells(adr, adc, kr, kc, r, c, sr, sc);
    let wb_cur = walk_cells(adr, adc, adr - kr, adc - kc, r, c, -sr, -sc);
    if kr >= adr && kc >= adc {
        assert(sr * (adr - kr) == 0 && sc * (adc - kc) == 0) by (nonlinear_arith)
            requires
                adr - kr == 0 && adc - kc == 0,
        {}
        assert(r1 == r && c1 == c);
        assert(wf_cur =~= Seq::<(int, int)>::empty());
        assert((seq![(r, c)] + wb_cur).reverse() + wf_cur =~= (seq![(r1, c1)] + walk_cells(
            adr,
            adc,
            0,
            0,
            r1,
            c1,
            -sr,
            -sc,
        )).reverse());
    } else if kc < adc && (kr >= adr || (2 * kc + 1) * adr < (2 * kr + 1) * adc) {
        // Forward column step to (r, c + sc).
        let cn = c + sc;
        assert(sc * (adc - kc) == sc + sc * (adc - (kc + 1))) by (nonlinear_arith) {}
        assert((2 * (kc + 1) - 1) * adr < (2 * kr + 1) * adc || kr >= adr);
        assert(kr == 0 || kc + 1 >= adc || (2 * kr - 1) * adc < (2 * (kc + 1) + 1) * adr) by {
            if kr > 0 && kc + 1 < adc {
                assert((2 * kr - 1) * adc < (2 * kc + 1) * adr);
                assert((2 * kc + 1) * adr <= (2 * (kc + 1) + 1) * adr) by (nonlinear_arith)
                    requires
                        0 < kr <= adr,
                {}
            }
        }
        lemma_walk_rev_step(adr, adc, kr, kc + 1, r, cn, sr, sc, r1, c1);
        let wb_next = walk_cells(adr, adc, adr - kr, adc - (kc + 1), r, cn, -sr, -sc);
        let wf_next = walk_cells(adr, adc, kr, kc + 1, r, cn, sr, sc);
        // The backward walk at the matching counts takes the same column
        // boundary, emitting (r, c).
        assert(adc - (kc + 1) < adc);
        assert(adr - kr >= adr || (2 * (adc - (kc + 1)) + 1) * adr < (2 * (adr - kr) + 1) * adc)
            by {
            if kr > 0 {
                assert((2 * kr - 1) * adc < (2 * kc + 1) * adr);
                assert((2 * (adc - (kc + 1)) + 1) * adr < (2 * (adr - kr) + 1) * adc)
                    by (nonlinear_arith)
                    requires
                        (2 * kr - 1) * adc < (2 * kc + 1) * adr,
                {}
            }
        }
        assert(wb_next =~= seq![(r, c)] + wb_cur);
        assert(wf_cur =~= seq![(r, cn)] + wf_next);
        lemma_reverse_cons((r, cn), seq![(r, c)] + wb_cur);
        assert(seq![(r, cn)] + (seq![(r, c)] + wb_cur) =~= seq![(r, cn)] + wb_next);
        assert((seq![(r, c)] + wb_cur).reverse() + wf_cur =~= (seq![(r, cn)] + wb_next).reverse()
            + wf_next);
    } else if kr < adr && (kc >= adc || (2 * kr + 1) * adc < (2 * kc + 1) * adr) {
        // Forward row step to (r + sr, c).
        let rn = r + sr;
        assert(sr * (adr - kr) == sr + sr * (adr - (kr + 1))) by (nonlinear_arith) {}
        assert(kc == 0 || kr + 1 >= adr || (2 * kc - 1) * adr < (2 * (kr + 1) + 1) * adc) by {
            if kc > 0 && kr + 1 < adr {
                assert((2 * kc - 1) * adr < (2 * kr + 1) * adc);
                assert((2 * kr + 1) * adc <= (2 * (kr + 1) + 1) * adc) by (nonlinear_arith)
                    requires
                        0 < kc <= adc,
                {}
            }
        }
        lemma_walk_rev_step(adr, adc, kr + 1, kc, rn, c, sr, sc, r1, c1);
        let wb_next = walk_cells(adr, adc, adr - (kr + 1), adc - kc, rn, c, -sr, -sc);
        let wf_next = walk_cells(adr, adc, kr + 1, kc, rn, c, sr, sc);
        assert(adr - (kr + 1) < adr);
        assert(adc - kc >= adc || (2 * (adr - (kr + 1)) + 1) * adc < (2 * (adc - kc) + 1) * adr)
            by {
            if kc > 0 {
                assert((2 * kc - 1) * adr < (2 * kr + 1) * adc);
                assert((2 * (adr - (kr + 1)) + 1) * adc < (2 * (adc - kc) + 1) * adr)
                    by (nonlinear_arith)
                    requires
                        (2 * kc - 1) * adr < (2 * kr + 1) * adc,
                {}
            }
        }
        assert(wb_next =~= seq![(r, c)] + wb_cur);
        assert(wf_cur =~= seq![(rn, c)] + wf_next);
        lemma_reverse_cons((rn, c), seq![(r, c)] + wb_cur);
        assert(seq![(rn, c)] + (seq![(r, c)] + wb_cur) =~= seq![(rn, c)] + wb_next);
        assert((seq![(r, c)] + wb_cur).reverse() + wf_cur =~= (seq![(rn, c)] + wb_next).reverse()
            + wf_next);
    } else {
        // Corner tie: both boundaries cross at once.
        let rn = r + sr;
        let cn = c + sc;
        assert(kr < adr && kc < adc);
        assert((2 * kc + 1) * adr == (2 * kr + 1) * adc);
        assert(sr * (adr - kr) == sr + sr * (adr - (kr + 1)) && sc * (adc - kc) == sc + sc * (adc
            - (kc + 1))) by (nonlinear_arith) {}
        assert(kr + 1 == 0 || kc + 1 >= adc || (2 * (kr + 1) - 1) * adc < (2 * (kc + 1) + 1)
            * adr) by {
            if kc + 1 < adc {
                assert((2 * (kr + 1) - 1) * adc < (2 * (kc + 1) + 1) * adr) by (nonlinear_arith)
                    requires
                        (2 * kc + 1) * adr == (2 * kr + 1) * adc,
                        0 <= kr < adr,
                {}
            }
        }
        assert(kc + 1 == 0 || kr + 1 >= adr || (2 * (kc + 1) - 1) * adr < (2 * (kr + 1) + 1)
            * adc) by {
            if kr + 1 < adr {
                assert((2 * (kc + 1) - 1) * adr < (2 * (kr + 1) + 1) * adc) by (nonlinear_arith)
                    requires
                        (2 * kc + 1) * adr == (2 * kr + 1) * adc,
                        0 <= kc < adc,
                {}
            }
        }
        lemma_walk_rev_step(adr, adc, kr + 1, kc + 1, rn, cn, sr, sc, r1, c1);
        let wb_next = walk_cells(adr, adc, adr - (kr + 1), adc - (kc + 1), rn, cn, -sr, -sc);
        let wf_next = walk_cells(adr, adc, kr + 1, kc + 1, rn, cn, sr, sc);
        // The backward walk at the matching counts ties on the same corner.
        assert((2 * (adc - (kc + 1)) + 1) * adr == (2 * (adr - (kr + 1)) + 1) * adc)
            by (nonlinear_arith)
            requires
                (2 * kc + 1) * adr == (2 * kr + 1) * adc,
        {}
        assert(adr - (kr + 1) < adr && adc - (kc + 1) < adc);
        assert(wb_next =~= seq![(rn, c), (r, cn), (r, c)] + wb_cur);
        assert(wf_cur =~= seq![(r, cn), (rn, c), (rn, cn)] + wf_next);
        lemma_reverse_cons((rn, cn), seq![(rn, c), (r, cn), (r, c)] + wb_cur);
        assert(seq![(rn, cn)] + (seq![(rn, c), (r, cn), (r, c)] + wb_cur) =~= seq![(rn, cn)]
            + wb_next);
        assert((seq![(r, c)] + wb_cur).reverse() + wf_cur =~= (seq![(rn, cn)] + wb_next).reverse()
            + wf_next);
    }
}

/// Rasterization symmetry: the cell path from `(r0, c0)` by `(dr, dc)`,
/// endpoints included, is the exact reverse of the cell path from the
/// destination by `(-dr, -dc)`.
pub proof fn lemma_raster_reverse(r0: int, c0: int, dr: int, dc: int)
    ensures
        seq![(r0, c0)] + spec_crossed(r0, c0, dr, dc) == (seq![(r0 + dr, c0 + dc)] + spec_crossed(
            r0 + dr,
            c0 + dc,
            -dr,
            -dc,
        )).reverse(),
{
    let adr = spec_abs(dr);
    let adc = spec_abs(dc);
    let sr = spec_sgn(dr);
    let sc = spec_sgn(dc);
    assert(sr * (adr - 0) == dr && sc * (adc - 0) == dc) by (nonlinear_arith)
        requires
            sr == spec_sgn(dr),
            adr == spec_abs(dr),
            sc == spec_sgn(dc),
            adc == spec_abs(dc),
    {}
    lemma_walk_rev_step(adr, adc, 0, 0, r0, c0, sr, sc, r0 + dr, c0 + dc);
    assert(walk_cells(adr, adc, adr, adc, r0, c0, -sr, -sc) =~= Seq::<(int, int)>::empty());
    assert((seq![(r0, c0)] + Seq::<(int, int)>::empty()).reverse() =~= seq![(r0, c0)]);
    assert(spec_crossed(r0 + dr, c0 + dc, -dr, -dc) == walk_cells(
        adr,
        adc,
        0,
        0,
        r0 + dr,
        c0 + dc,
        -sr,
        -sc,
    ));
}

/// Walk the crossed cells of a move, in travel order.
pub fn raster_cells(r0: i32, c0: i32, dr: i32, dc: i32) -> (res: Vec<(i32, i32)>)
    requires
        -0x8000 <= r0 <= 0x8000,
        -0x8000 <= c0 <= 0x8000,
        -0x2000 <= dr <= 0x2000,
        -0x2000 <= dc <= 0x2000,
    ensures
        cells_view(res@) == spec_crossed(r0 as int, c0 as int, dr as int, dc as int),
        res@.len() <= 2 * (spec_abs(dr as int) + spec_abs(dc as int)),
{
    let adr: i64 = if dr >= 0 {
        dr as i64
    } else {
        -(dr as i64)
    };
    let adc: i64 = if dc >= 0 {
        dc as i64
    } else {
        -(dc as i64)
    };
    let sr: i32 = if dr > 0 {
        1
    } else if dr < 0 {
        -1
    } else {
        0
    };
    let sc: i32 = if dc > 0 {
        1
    } else if dc < 0 {
        -1
    } else {
        0
    };
    let mut kr: i64 = 0;
    let mut kc: i64 = 0;
    let mut r: i32 = r0;
    let mut c: i32 = c0;
    let mut res: Vec<(i32, i32)> = Vec::new();
    let ghost total = spec_crossed(r0 as int, c0 as int, dr as int, dc as int);
    while kr < adr || kc < adc
        invariant
            adr == spec_abs(dr as int),
            adc == spec_abs(dc as int),
            sr == spec_sgn(dr as int),
            sc == spec_sgn(dc as int),
            0 <= kr <= adr <= 0x2000,
            0 <= kc <= adc <= 0x2000,
            -0x8000 <= r0 <= 0x8000,
            -0x8000 <= c0 <= 0x8000,
            r == r0 + sr * kr,
            c == c0 + sc * kc,
            res@.len() <= 2 * (kr + kc),
            cells_view(res@) + walk_cells(
                adr as int,
                adc as int,
                kr as int,
                kc as int,
                r as int,
                c as int,
                sr as int,
                sc as int,
            ) == total,
        decreases walk_fuel(adr as int, adc as int, kr as int, kc as int),
    {
        proof {
            assert(0 <= (2 * kc + 1) * adr <= 0x40000000 && 0 <= (2 * kr + 1) * adc
                <= 0x40000000) by (nonlinear_arith)
                requires
                    0 <= kc <= 0x2000,
                    0 <= kr <= 0x2000,
                    0 <= adr <= 0x2000,
                    0 <= adc <= 0x2000,
            {}
            assert(-0x2000 <= sr * kr <= 0x2000 && -0x2000 <= sc * kc <= 0x2000)
                by (nonlinear_arith)
                requires
                    -1 <= sr <= 1,
                    -1 <= sc <= 1,
                    0 <= kr <= 0x2000,
                    0 <= kc <= 0x2000,
            {}
        }
        let cgo = kc < adc && (kr >= adr || (2 * kc + 1) * adr < (2 * kr + 1) * adc);
        let rgo = kr < adr && (kc >= adc || (2 * kr + 1) * adc < (2 * kc + 1) * adr);
        if cgo {
            c = c + sc;
            res.push((r, c));
            kc = kc + 1;
            proof {
                assert(c as int == c0 + sc * kc) by (nonlinear_arith)
                    requires
                        c == (c0 + sc * (kc - 1)) + sc,
                {}
                assert(cells_view(res@) =~= cells_view(res@.drop_last()) + seq![
                    (r as int, c as int),
                ]);
            }
        } else if rgo {
            r = r + sr;
            res.push((r, c));
            kr = kr + 1;
            proof {
                assert(r as int == r0 + sr * kr) by (nonlinear_arith)
                    requires
                        r == (r0 + sr * (kr - 1)) + sr,
                {}
                assert(cells_view(res@) =~= cells_view(res@.drop_last()) + seq![
                    (r as int, c as int),
                ]);
            }
        } else {
            res.push((r, c + sc));
            res.push((r + sr, c));
            res.push((r + sr, c + sc));
            r = r + sr;
            c = c + sc;
            kr = kr + 1;
            kc = kc + 1;
            proof {
                assert(r as int == r0 + sr * kr && c as int == c0 + sc * kc) by (nonlinear_arith)
                    requires
                        r == (r0 + sr * (kr - 1)) + sr,
                        c == (c0 + sc * (kc - 1)) + sc,
                {}
                assert(cells_view(res@) =~= cells_view(res@.drop_last().drop_last().drop_last())
                    + seq![
                    (r as int - sr, c as int),
                    (r as int, c as int - sc),
                    (r as int, c as int),
                ]);
            }
        }
    }
    proof {
        assert(cells_view(res@) =~= cells_view(res@) + walk_cells(
            adr as int,
            adc as int,
            kr as int,
            kc as int,
            r as int,
            c as int,
            sr as int,
            sc as int,
        ));
    }
    res
}

} // verus!
