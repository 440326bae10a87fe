use vstd::prelude::*;

use core::marker::PhantomData;
use core::ops::Range;

use crate::complex::Complex;
use crate::scalar::Scalar;

verus! {

/// A renderable vertex: the renderer supplies the concrete layout, the
/// library only needs to build one from a complex root position and to
/// read the position back.
pub trait Point<S: Scalar>: Sized + Copy {
    /// The stored horizontal (real) component.
    spec fn sp_x(&self) -> S;

    /// The stored vertical (imaginary) component.
    spec fn sp_y(&self) -> S;

    /// The vertex a fresh buffer is filled with.
    spec fn sp_default() -> Self;

    /// A vertex at the given root position.
    fn from_complex(c: &Complex<S>) -> (r: Self)
        ensures
            r.sp_x() == c.re,
            r.sp_y() == c.im,
    ;

    /// A fill vertex for buffer initialisation.
    fn default_point() -> (r: Self)
        ensures
            r == Self::sp_default(),
    ;

    fn x(&self) -> (r: S)
        ensures
            r == self.sp_x(),
    ;

    fn y(&self) -> (r: S)
        ensures
            r == self.sp_y(),
    ;
}

/// A dense vertex buffer for up to `C` curves of up to `V` vertices each,
/// laid out curve-major, together with how many curves and how many
/// vertices per curve are in use. The index and range methods describe the
/// line-list layout a renderer draws from.
pub struct Curves<const C: usize, const V: usize, P, S> {
    vertices: Vec<P>,
    vertex_count: u32,
    curve_count: u32,
    _pad: PhantomData<S>,
}

impl<const C: usize, const V: usize, P, S> View for Curves<C, V, P, S> {
    type V = Seq<P>;

    closed spec fn view(&self) -> Seq<P> {
        self.vertices@
    }
}

/// Position `c2 * (V - 1) + k2` comes strictly before `c * (V - 1) + k`
/// when `(c2, k2)` precedes `(c, k)` over curves of `V - 1` segments.
proof fn lemma_segment_pos_lt(c2: int, k2: int, c: int, k: int, v: int)
    by (nonlinear_arith)
    requires
        v >= 1,
        0 <= k2 < v - 1,
        0 <= k < v - 1,
        0 <= c2,
        c2 < c || (c2 == c && k2 < k),
    ensures
        c2 * (v - 1) + k2 < c * (v - 1) + k,
        (c2 * (v - 1) + k2) * 2 + 2 <= (c * (v - 1) + k) * 2,
{
}

/// Position `c * (V - 1) + k` stays inside the `C * (V - 1)` segments.
proof fn lemma_segment_pos_bound(c: int, k: int, cc: int, v: int)
    by (nonlinear_arith)
    requires
        v >= 1,
        0 <= k < v - 1,
        0 <= c < cc,
    ensures
        0 <= c * (v - 1) + k < cc * (v - 1),
        0 <= c * (v - 1),
        cc * (v - 1) * 2 <= cc * v * 2,
        c * v + k + 1 <= cc * v,
{
}

/// Vertex slot `c * V + j` stays inside the `C * V` buffer.
proof fn lemma_vertex_pos_bound(c: int, j: int, cc: int, v: int)
    by (nonlinear_arith)
    requires
        0 <= j < v,
        0 <= c < cc,
    ensures
        0 <= c * v + j < cc * v,
{
}


/// Two in-range (curve, vertex) slots with different coordinates map to
/// different buffer positions.
pub(crate) proof fn lemma_vertex_slot_injective(o2: int, t2: int, o: int, t: int, v: int)
    by (nonlinear_arith)
    requires
        0 <= t2 < v,
        0 <= t < v,
        0 <= o2,
        0 <= o,
        o2 != o || t2 != t,
    ensures
        o2 * v + t2 != o * v + t,
{
}

/// Vertex slot `c * V + j` stays inside a `cc * V` buffer.
pub(crate) proof fn lemma_vertex_slot_bound(c: int, j: int, cc: int, v: int)
    by (nonlinear_arith)
    requires
        0 <= j < v,
        0 <= c < cc,
    ensures
        0 <= c * v + j < cc * v,
{
}

/// The buffer position of segment `k` of curve `c`: two index entries per
/// segment over `v - 1` segments per curve.
pub open spec fn sp_segment_slot(c: int, k: int, v: int) -> int {
    (c * (v - 1) + k) * 2
}

/// The buffer position of vertex `j` of curve `i` over `v` vertices per
/// curve.
pub open spec fn sp_vertex_slot(i: int, j: int, v: int) -> int {
    i * v + j
}

impl<const C: usize, const V: usize, P, S> Curves<C, V, P, S> where P: Point<S>, S: Scalar {
    /// The buffer holds exactly `C · V` vertices, the counts stay within
    /// the capacity, and a used curve is never empty.
    pub closed spec fn wf(self) -> bool {
        &&& self.vertices@.len() == C * V
        &&& self.curve_count <= C
        &&& self.vertex_count <= V
        &&& (self.curve_count > 0 ==> self.vertex_count >= 1)
    }

    /// How many curves are in use.
    pub closed spec fn spec_curve_count(self) -> u32 {
        self.curve_count
    }

    /// How many vertices each used curve has.
    pub closed spec fn spec_vertex_count(self) -> u32 {
        self.vertex_count
    }

    /// A well-formed buffer holds exactly its full capacity of vertices.
    pub proof fn lemma_wf_len(self)
        requires
            self.wf(),
        ensures
            self@.len() == C * V,
    {
    }

    /// A fresh buffer: full capacity allocated, nothing in use.
    pub fn new() -> (r: Self)
        requires
            C * V <= usize::MAX,
        ensures
            r.wf(),
            r@.len() == C * V,
            r.spec_curve_count() == 0,
            r.spec_vertex_count() == 0,
            forall|i: int| 0 <= i < C * V ==> r@[i] == P::sp_default(),
    {
        let total: usize = C * V;
        let mut vertices: Vec<P> = Vec::new();
        let mut i: usize = 0;
        while i < total
            invariant
                i <= total,
                vertices@.len() == i,
                forall|q: int| 0 <= q < i ==> vertices@[q] == P::sp_default(),
            decreases total - i,
        {
            vertices.push(P::default_point());
            i = i + 1;
        }
        Curves { vertices, vertex_count: 0, curve_count: 0, _pad: PhantomData }
    }

    /// Fills `data` with the line-list index pairs of every curve slot:
    /// segment `k` of curve `c` joins vertices `c·V + k` and `c·V + k + 1`.
    pub fn get_indices(data: &mut Vec<u16>)
        requires
            old(data)@.len() == C * (V - 1) * 2,
            V >= 1,
            C * V <= 65535,
        ensures
            final(data)@.len() == old(data)@.len(),
            forall|c: int, k: int|
                0 <= c < C && 0 <= k < V - 1 ==> #[trigger] final(data)@[sp_segment_slot(
                    c,
                    k,
                    V as int,
                )] as int == c * V + k && final(data)@[sp_segment_slot(c, k, V as int) + 1] as int
                    == c * V + k + 1,
    {
        let mut v: u16 = 0;
        let mut c: usize = 0;
        while c < C
            invariant
                c <= C,
                V >= 1,
                C * V <= 65535,
                data@.len() == C * (V - 1) * 2,
                v as int == c * V,
                forall|c2: int, k2: int|
                    0 <= c2 < c && 0 <= k2 < V - 1 ==> #[trigger] data@[sp_segment_slot(
                        c2,
                        k2,
                        V as int,
                    )] as int == c2 * V + k2 && data@[sp_segment_slot(c2, k2, V as int) + 1] as int
                        == c2 * V + k2 + 1,
            decreases C - c,
        {
            proof {
                lemma_vertex_pos_bound(c as int, 0, C as int, V as int);
            }
            let mut k: usize = 0;
            while k < V - 1
                invariant
                    k <= V - 1,
                    c < C,
                    V >= 1,
                    C * V <= 65535,
                    data@.len() == C * (V - 1) * 2,
                    v as int == c * V + k,
                    forall|c2: int, k2: int|
                        0 <= c2 < c && 0 <= k2 < V - 1 ==> #[trigger] data@[sp_segment_slot(
                            c2,
                            k2,
                            V as int,
                        )] as int == c2 * V + k2 && data@[sp_segment_slot(c2, k2, V as int)
                            + 1] as int == c2 * V + k2 + 1,
                    forall|k2: int|
                        0 <= k2 < k ==> #[trigger] data@[sp_segment_slot(c as int, k2, V as int)] as int
                            == c * V + k2 && data@[sp_segment_slot(c as int, k2, V as int) + 1] as int
                            == c * V + k2 + 1,
                decreases V - 1 - k,
            {
                proof {
                    lemma_segment_pos_bound(c as int, k as int, C as int, V as int);
                    assert forall|c2: int, k2: int|
                        0 <= c2 < C && 0 <= k2 < V - 1 && (c2 < c || (c2 == c && k2
                            < k)) implies #[trigger] sp_segment_slot(c2, k2, V as int) + 2
                        <= sp_segment_slot(c as int, k as int, V as int) by {
                        lemma_segment_pos_lt(c2, k2, c as int, k as int, V as int);
                    }
                }
                let pos: usize = (c * (V - 1) + k) * 2;
                assert(pos as int == sp_segment_slot(c as int, k as int, V as int));
                data[pos] = v;
                data[pos + 1] = v + 1;
                v = v + 1;
                k = k + 1;
            }
            proof {
                lemma_vertex_pos_bound(c as int, V as int - 1, C as int, V as int);
                assert((c as int + 1) * (V as int) == c as int * (V as int) + (V as int))
                    by (nonlinear_arith);
                assert forall|c2: int, k2: int|
                    0 <= c2 < c + 1 && 0 <= k2 < V - 1 implies #[trigger] data@[sp_segment_slot(
                    c2,
                    k2,
                    V as int,
                )] as int == c2 * V + k2 && data@[sp_segment_slot(c2, k2, V as int) + 1] as int
                    == c2 * V + k2 + 1 by {
                    if c2 == c as int {
                        assert(data@[sp_segment_slot(c as int, k2, V as int)] as int == c as int
                            * V + k2);
                    }
                }
            }
            v = v + 1;
            c = c + 1;
        }
    }

    /// For every curve slot, the index range the renderer should draw:
    /// the slot's segment pairs up to the used vertex count, or nothing
    /// for an unused slot.
    pub fn get_index_ranges(&self, data: &mut Vec<Option<Range<u32>>>)
        requires
            self.wf(),
            old(data)@.len() == C,
            V >= 1,
            C * V * 2 <= u32::MAX,
        ensures
            final(data)@.len() == C,
            forall|c: int|
                0 <= c < C ==> final(data)@[c] == (if c < self.spec_curve_count() {
                    Some(
                        Range {
                            start: (c * (V - 1) * 2) as u32,
                            end: (c * (V - 1) * 2 + (self.spec_vertex_count() - 1) * 2) as u32,
                        },
                    )
                } else {
                    Option::<Range<u32>>::None
                }),
    {
        let mut c: usize = 0;
        while c < C
            invariant
                c <= C,
                V >= 1,
                self.wf(),
                C * V * 2 <= u32::MAX,
                data@.len() == C,
                forall|c2: int|
                    0 <= c2 < c ==> data@[c2] == (if c2 < self.spec_curve_count() {
                        Some(
                            Range {
                                start: (c2 * (V - 1) * 2) as u32,
                                end: (c2 * (V - 1) * 2 + (self.spec_vertex_count() - 1)
                                    * 2) as u32,
                            },
                        )
                    } else {
                        Option::<Range<u32>>::None
                    }),
            decreases C - c,
        {
            proof {
                lemma_range_start_bound(c as int, C as int, V as int);
            }
            let d = if c < self.curve_count as usize {
                let start: u32 = (c * (V - 1) * 2) as u32;
                assert(start as int == c * (V - 1) * 2);
                let end: u32 = start + (self.vertex_count - 1) * 2;
                assert(end as int == c * (V - 1) * 2 + (self.spec_vertex_count() - 1) * 2);
                Some(start..end)
            } else {
                None
            };
            assert(d == (if (c as int) < self.spec_curve_count() {
                Some(
                    Range {
                        start: (c * (V - 1) * 2) as u32,
                        end: (c * (V - 1) * 2 + (self.spec_vertex_count() - 1) * 2) as u32,
                    },
                )
            } else {
                Option::<Range<u32>>::None
            }));
            data[c] = d;
            c = c + 1;
        }
    }

    /// For every curve slot, the vertex range in use: the slot's vertices
    /// up to the used vertex count, or nothing for an unused slot.
    pub fn get_vertex_ranges(&self, data: &mut Vec<Option<Range<usize>>>)
        requires
            self.wf(),
            old(data)@.len() == C,
            V >= 1,
            C * V <= usize::MAX,
        ensures
            final(data)@.len() == C,
            forall|c: int|
                0 <= c < C ==> final(data)@[c] == (if c < self.spec_curve_count() {
                    Some(
                        Range {
                            start: (c * V) as usize,
                            end: (c * V + self.spec_vertex_count()) as usize,
                        },
                    )
                } else {
                    Option::<Range<usize>>::None
                }),
    {
        let mut c: usize = 0;
        while c < C
            invariant
                c <= C,
                V >= 1,
                self.wf(),
                C * V <= usize::MAX,
                data@.len() == C,
                forall|c2: int|
                    0 <= c2 < c ==> data@[c2] == (if c2 < self.spec_curve_count() {
                        Some(
                            Range {
                                start: (c2 * V) as usize,
                                end: (c2 * V + self.spec_vertex_count()) as usize,
                            },
                        )
                    } else {
                        Option::<Range<usize>>::None
                    }),
            decreases C - c,
        {
            proof {
                lemma_range_start_bound(c as int, C as int, V as int);
            }
            let d = if c < self.curve_count as usize {
                let start: usize = c * V;
                let end: usize = start + self.vertex_count as usize;
                assert(end as int == c * V + self.spec_vertex_count());
                Some(start..end)
            } else {
                None
            };
            assert(d == (if (c as int) < self.spec_curve_count() {
                Some(
                    Range {
                        start: (c * V) as usize,
                        end: (c * V + self.spec_vertex_count()) as usize,
                    },
                )
            } else {
                Option::<Range<usize>>::None
            }));
            data[c] = d;
            c = c + 1;
        }
    }

    /// Copies the given curves into the buffer and records their counts;
    /// every curve must be equally long and must fit the capacity.
    pub fn write(&mut self, data: &Vec<Vec<P>>)
        requires
            old(self).wf(),
            C <= u32::MAX,
            V <= u32::MAX,
            data@.len() <= C,
            data@.len() > 0 ==> data@[0]@.len() >= 1,
            forall|i: int| 0 <= i < data@.len() ==> (#[trigger] data@[i])@.len() == data@[0]@.len(),
            data@.len() > 0 ==> data@[0]@.len() <= V,
        ensures
            final(self).wf(),
            final(self).spec_curve_count() == data@.len(),
            final(self)@.len() == old(self)@.len(),
            final(self).spec_vertex_count() == (if data@.len() > 0 {
                data@[0]@.len() as int
            } else {
                0
            }),
            forall|i: int, j: int|
                0 <= i < data@.len() && 0 <= j < data@[0]@.len() ==> #[trigger] final(self)@[sp_vertex_slot(
                    i,
                    j,
                    V as int,
                )] == data@[i]@[j],
            forall|q: int|
                0 <= q < old(self)@.len() && (forall|i: int, j: int|
                    0 <= i < data@.len() && 0 <= j < data@[0]@.len() ==> q != #[trigger] sp_vertex_slot(
                        i,
                        j,
                        V as int,
                    )) ==> final(self)@[q] == old(self)@[q],
    {
        self.curve_count = data.len() as u32;

        if data.len() == 0 {
            self.vertex_count = 0;
            return ;
        }
        self.vertex_count = data[0].len() as u32;

        let total: usize = self.vertices.len();
        assert(total == C * V);
        let ghost orig = self.vertices@;
        let mut i: usize = 0;
        while i < data.len()
            invariant
                i <= data@.len(),
                data@.len() <= C,
                data@.len() >= 1,
                data@[0]@.len() >= 1,
                data@[0]@.len() <= V,
                forall|t: int|
                    0 <= t < data@.len() ==> (#[trigger] data@[t])@.len() == data@[0]@.len(),
                self.vertices@.len() == C * V,
                C * V <= usize::MAX,
                self.vertices@.len() == orig.len(),
                self.curve_count == data@.len() as u32,
                self.vertex_count == data@[0]@.len() as u32,
                data@.len() <= u32::MAX,
                data@[0]@.len() <= u32::MAX,
                forall|t: int, j: int|
                    0 <= t < i && 0 <= j < data@[0]@.len() ==> #[trigger] self.vertices@[sp_vertex_slot(
                        t,
                        j,
                        V as int,
                    )] == data@[t]@[j],
                forall|q: int|
                    0 <= q < orig.len() && (forall|t: int, j: int|
                        0 <= t < i && 0 <= j < data@[0]@.len() ==> q != #[trigger] sp_vertex_slot(
                            t,
                            j,
                            V as int,
                        )) ==> self.vertices@[q] == orig[q],
            decreases data@.len() - i,
        {
            let row_len: usize = data[i].len();
            let mut j: usize = 0;
            while j < row_len
                invariant
                    j <= row_len,
                    i < data@.len(),
                    data@.len() <= C,
                    data@[0]@.len() >= 1,
                    data@[0]@.len() <= V,
                    row_len == data@[i as int]@.len(),
                    forall|t: int|
                        0 <= t < data@.len() ==> (#[trigger] data@[t])@.len() == data@[0]@.len(),
                    self.vertices@.len() == C * V,
                    C * V <= usize::MAX,
                    self.vertices@.len() == orig.len(),
                    self.curve_count == data@.len() as u32,
                    self.vertex_count == data@[0]@.len() as u32,
                    data@.len() <= u32::MAX,
                    data@[0]@.len() <= u32::MAX,
                    forall|t: int, j2: int|
                        0 <= t < i && 0 <= j2 < data@[0]@.len() ==> #[trigger] self.vertices@[sp_vertex_slot(
                            t,
                            j2,
                            V as int,
                        )] == data@[t]@[j2],
                    forall|j2: int|
                        0 <= j2 < j ==> #[trigger] self.vertices@[sp_vertex_slot(
                            i as int,
                            j2,
                            V as int,
                        )] == data@[i as int]@[j2],
                    forall|q: int|
                        0 <= q < orig.len() && (forall|t: int, j2: int|
                            0 <= t < i && 0 <= j2 < data@[0]@.len() ==> q != #[trigger] sp_vertex_slot(
                                t,
                                j2,
                                V as int,
                            )) && (forall|j2: int|
                            0 <= j2 < j ==> q != #[trigger] sp_vertex_slot(i as int, j2, V as int))
                            ==> self.vertices@[q] == orig[q],
                decreases row_len - j,
            {
                proof {
                    lemma_vertex_pos_bound(i as int, j as int, C as int, V as int);
                    assert forall|t: int, j2: int|
                        0 <= t < i && 0 <= j2 < data@[0]@.len() implies #[trigger] sp_vertex_slot(
                        t,
                        j2,
                        V as int,
                    ) != sp_vertex_slot(i as int, j as int, V as int) by {
                        lemma_vertex_slots_distinct(t, j2, i as int, j as int, V as int);
                    }
                }
                assert(V as int * (i as int) == i as int * (V as int)) by (nonlinear_arith);
                assert(V as int * (i as int) + j as int == sp_vertex_slot(
                    i as int,
                    j as int,
                    V as int,
                ));
                let pos: usize = V * i + j;
                self.vertices[pos] = data[i][j];
                proof {
                    assert forall|t: int, j2: int|
                        0 <= t < i && 0 <= j2 < data@[0]@.len() implies #[trigger] self.vertices@[sp_vertex_slot(
                        t,
                        j2,
                        V as int,
                    )] == data@[t]@[j2] by {
                        lemma_vertex_pos_bound(t, j2, C as int, V as int);
                        assert(sp_vertex_slot(t, j2, V as int) != pos as int);
                    }
                    assert forall|j2: int|
                        0 <= j2 < j + 1 implies #[trigger] self.vertices@[sp_vertex_slot(
                        i as int,
                        j2,
                        V as int,
                    )] == data@[i as int]@[j2] by {
                        lemma_vertex_pos_bound(i as int, j2, C as int, V as int);
                        if j2 < j {
                            assert(sp_vertex_slot(i as int, j2, V as int) != pos as int);
                        } else {
                            assert(sp_vertex_slot(i as int, j2, V as int) == pos as int);
                        }
                    }
                }
                j = j + 1;
            }
            proof {
                assert forall|q: int|
                    0 <= q < orig.len() && (forall|t: int, j2: int|
                        0 <= t < i + 1 && 0 <= j2 < data@[0]@.len() ==> q != #[trigger] sp_vertex_slot(
                            t,
                            j2,
                            V as int,
                        )) implies self.vertices@[q] == orig[q] by {
                    assert(forall|t: int, j2: int|
                        0 <= t < i && 0 <= j2 < data@[0]@.len() ==> q != #[trigger] sp_vertex_slot(
                            t,
                            j2,
                            V as int,
                        ));
                    assert(forall|j2: int|
                        0 <= j2 < data@[0]@.len() ==> q != #[trigger] sp_vertex_slot(
                            i as int,
                            j2,
                            V as int,
                        ));
                }
                assert forall|t: int, j2: int|
                    0 <= t < i + 1 && 0 <= j2 < data@[0]@.len() implies #[trigger] self.vertices@[sp_vertex_slot(
                    t,
                    j2,
                    V as int,
                )] == data@[t]@[j2] by {
                    if t == i as int {
                        assert(data@[i as int]@.len() == data@[0]@.len());
                    }
                }
            }
            i = i + 1;
        }
    }

    /// The whole vertex buffer, read-only.
    pub fn get_vertices(&self) -> (r: &Vec<P>)
        ensures
            r@ == self@,
    {
        &self.vertices
    }

    /// The whole vertex buffer, writable; the counts stay as they are.
    pub fn get_vertices_mut(&mut self) -> (r: &mut Vec<P>)
        ensures
            r@ == old(self)@,
            final(self)@ == final(r)@,
            final(self).spec_curve_count() == old(self).spec_curve_count(),
            final(self).spec_vertex_count() == old(self).spec_vertex_count(),
    {
        &mut self.vertices
    }

    /// Stores one vertex, leaving the counts and every other slot alone.
    pub fn set_vertex(&mut self, pos: usize, p: P)
        requires
            old(self).wf(),
            pos < C * V,
        ensures
            final(self).wf(),
            final(self)@ == old(self)@.update(pos as int, p),
            final(self).spec_curve_count() == old(self).spec_curve_count(),
            final(self).spec_vertex_count() == old(self).spec_vertex_count(),
    {
        self.vertices[pos] = p;
    }
}

/// Two distinct in-range (curve, vertex) slots map to distinct buffer
/// positions.
proof fn lemma_vertex_slots_distinct(t: int, j2: int, i: int, j: int, v: int)
    by (nonlinear_arith)
    requires
        0 <= j2 < v,
        0 <= j < v,
        0 <= t < i,
    ensures
        t * v + j2 != i * v + j,
{
}

/// The range starts computed per curve slot stay inside the buffer.
proof fn lemma_range_start_bound(c: int, cc: int, v: int)
    by (nonlinear_arith)
    requires
        0 <= c < cc,
        v >= 1,
    ensures
        c * (v - 1) * 2 + (v - 1) * 2 <= cc * v * 2,
        c * v + v <= cc * v,
        c * (v - 1) * 2 >= 0,
        c * v >= 0,
        cc <= cc * v,
{
}

} // verus!
