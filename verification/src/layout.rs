//! Where pixels live in space. The builder hands out dense ids in add order, so an id
//! follows the strand (wiring order), and records which group each pixel belongs to.
//! Coordinates are metres, right-handed, y up, carried as `f32` bit patterns; computing
//! them is the caller's business. No universe or channel is known here.

use vstd::prelude::*;

use crate::text::str_eq;

verus! {

/// One placed pixel in logical space. `x`, `y` and `z` are `f32` bit patterns.
#[derive(Clone, Debug, PartialEq)]
pub struct PixelLogical {
    pub id: u32,
    pub x: u32,
    pub y: u32,
    pub z: u32,
    pub group: String,
    pub label: Option<String>,
}

/// Group names and their pixel ids, as plain values.
pub open spec fn groups_view(g: Seq<(String, Vec<u32>)>) -> Seq<(Seq<char>, Seq<u32>)> {
    g.map_values(|e: (String, Vec<u32>)| (e.0@, e.1@))
}

/// Entry `j` is the first one named `name`.
pub open spec fn is_first_named(g: Seq<(Seq<char>, Seq<u32>)>, name: Seq<char>, j: int) -> bool {
    &&& 0 <= j < g.len()
    &&& g[j].0 == name
    &&& forall|k: int| 0 <= k < j ==> g[k].0 != name
}

/// The ids of a group, or none when no group has that name.
pub open spec fn group_ids(g: Seq<(Seq<char>, Seq<u32>)>, name: Seq<char>) -> Seq<u32> {
    if exists|j: int| is_first_named(g, name, j) {
        g[choose|j: int| is_first_named(g, name, j)].1
    } else {
        Seq::empty()
    }
}

/// A well-formed layout: ids are dense (a pixel's id is its index), group names are
/// distinct, each group lists, in add order, exactly the pixels that name it.
pub open spec fn layout_wf(pixels: Seq<PixelLogical>, g: Seq<(Seq<char>, Seq<u32>)>) -> bool {
    &&& pixels.len() <= u32::MAX
    &&& forall|i: int| 0 <= i < pixels.len() ==> #[trigger] pixels[i].id == i
    &&& forall|a: int, b: int| 0 <= a < b < g.len() ==> g[a].0 != g[b].0
    &&& forall|j: int, k: int|
        0 <= j < g.len() && 0 <= k < g[j].1.len() ==> {
            &&& g[j].1[k] < pixels.len()
            &&& pixels[g[j].1[k] as int].group@ == g[j].0
        }
    &&& forall|j: int, k1: int, k2: int|
        0 <= j < g.len() && 0 <= k1 < k2 < g[j].1.len() ==> g[j].1[k1] < g[j].1[k2]
    &&& forall|i: int|
        #![trigger pixels[i]]
        0 <= i < pixels.len() ==> exists|j: int, k: int|
            0 <= j < g.len() && 0 <= k < g[j].1.len() && g[j].0 == pixels[i].group@
                && #[trigger] g[j].1[k] == i as u32
}

/// A finished layout: dense pixels plus group membership.
#[derive(Clone, Debug)]
pub struct Layout {
    pub pixels: Vec<PixelLogical>,
    pub groups: Vec<(String, Vec<u32>)>,
}

impl Layout {
    /// Number of pixels.
    pub fn len(&self) -> (r: usize)
        ensures
            r == self.pixels@.len(),
    {
        self.pixels.len()
    }

    /// Whether the layout holds no pixel.
    pub fn is_empty(&self) -> (r: bool)
        ensures
            r == (self.pixels@.len() == 0),
    {
        self.pixels.len() == 0
    }

    /// The pixel ids of a group, or an empty slice when no group has that name.
    pub fn group(&self, name: &str) -> (r: &[u32])
        ensures
            r@ == group_ids(groups_view(self.groups@), name@),
    {
        let ghost g = groups_view(self.groups@);
        let mut j: usize = 0;
        while j < self.groups.len()
            invariant
                j <= self.groups@.len(),
                g == groups_view(self.groups@),
                forall|k: int| 0 <= k < j ==> g[k].0 != name@,
            decreases self.groups@.len() - j,
        {
            if str_eq(self.groups[j].0.as_str(), name) {
                proof {
                    lemma_first_named_is_unique(g, name@, j as int);
                }
                return self.groups[j].1.as_slice();
            }
            j = j + 1;
        }
        proof {
            assert(!exists|j: int| is_first_named(g, name@, j));
        }
        let none: &[u32] = &[];
        proof {
            assert(none@ =~= Seq::<u32>::empty());
        }
        none
    }
}

proof fn lemma_first_named_is_unique(g: Seq<(Seq<char>, Seq<u32>)>, name: Seq<char>, j: int)
    requires
        is_first_named(g, name, j),
    ensures
        group_ids(g, name) == g[j].1,
{
    let c = choose|k: int| is_first_named(g, name, k);
    assert(is_first_named(g, name, c));
    if c < j {
        assert(g[c].0 != name);
    } else if j < c {
        assert(g[j].0 != name);
    }
}

/// Builds a [`Layout`] from placed pixels, assigning dense ids in add order.
pub struct LayoutBuilder {
    pixels: Vec<PixelLogical>,
    groups: Vec<(String, Vec<u32>)>,
}

impl LayoutBuilder {
    #[verifier::type_invariant]
    spec fn inv(self) -> bool {
        layout_wf(self.pixels@, groups_view(self.groups@))
    }

    /// The pixels placed so far.
    pub closed spec fn pixels(&self) -> Seq<PixelLogical> {
        self.pixels@
    }

    /// The groups so far.
    pub closed spec fn groups(&self) -> Seq<(Seq<char>, Seq<u32>)> {
        groups_view(self.groups@)
    }

    /// An empty builder.
    pub fn new() -> (b: Self)
        ensures
            b.pixels().len() == 0,
            b.groups().len() == 0,
    {
        let b = LayoutBuilder { pixels: Vec::new(), groups: Vec::new() };
        proof {
            assert(groups_view(b.groups@) =~= Seq::empty());
        }
        b
    }

    /// Number of pixels placed so far.
    pub fn len(&self) -> (r: usize)
        ensures
            r == self.pixels().len(),
    {
        self.pixels.len()
    }

    /// Places one pixel at `(x, y, z)` in `group` and returns its id, the next in add order.
    pub fn push(&mut self, x: u32, y: u32, z: u32, group: &str) -> (id: u32)
        requires
            old(self).pixels().len() < u32::MAX,
        ensures
            id == old(self).pixels().len(),
            final(self).pixels().len() == old(self).pixels().len() + 1,
            forall|i: int|
                0 <= i < old(self).pixels().len() ==> #[trigger] final(self).pixels()[i] == old(
                    self,
                ).pixels()[i],
            final(self).pixels()[id as int].id == id,
            final(self).pixels()[id as int].x == x,
            final(self).pixels()[id as int].y == y,
            final(self).pixels()[id as int].z == z,
            final(self).pixels()[id as int].group@ == group@,
            final(self).pixels()[id as int].label is None,
            group_ids(final(self).groups(), group@) == group_ids(old(self).groups(), group@).push(
                id,
            ),
            forall|name: Seq<char>|
                name != group@ ==> #[trigger] group_ids(final(self).groups(), name) == group_ids(
                    old(self).groups(),
                    name,
                ),
    {
        proof {
            use_type_invariant(&*self);
        }
        let ghost p0 = self.pixels@;
        let ghost g0 = groups_view(self.groups@);
        let id = self.pixels.len() as u32;
        let mut taken = LayoutBuilder { pixels: Vec::new(), groups: Vec::new() };
        proof {
            assert(groups_view(taken.groups@) =~= Seq::empty());
        }
        std::mem::swap(&mut taken, self);
        let LayoutBuilder { mut pixels, mut groups } = taken;
        pixels.push(
            PixelLogical { id, x, y, z, group: group.to_owned(), label: None },
        );
        let ghost p1 = pixels@;
        let mut j: usize = 0;
        let mut found = false;
        while j < groups.len() && !found
            invariant
                j <= groups@.len(),
                g0 == groups_view(groups@),
                forall|k: int| 0 <= k < j ==> g0[k].0 != group@,
                found ==> j < groups@.len() && g0[j as int].0 == group@,
            decreases groups@.len() - j + (if found { 0int } else { 1int }),
        {
            if str_eq(groups[j].0.as_str(), group) {
                found = true;
            } else {
                j = j + 1;
            }
        }
        if found {
            let (name, mut ids) = groups.remove(j);
            ids.push(id);
            groups.insert(j, (name, ids));
            proof {
                let g1 = groups_view(groups@);
                assert(is_first_named(g0, group@, j as int));
                lemma_first_named_is_unique(g0, group@, j as int);
                assert(g1 =~= g0.update(j as int, (group@, g0[j as int].1.push(id))));
                lemma_append_to_group(p0, g0, p1, j as int, group@);
            }
        } else {
            let mut ids: Vec<u32> = Vec::new();
            ids.push(id);
            groups.push((group.to_owned(), ids));
            proof {
                let g1 = groups_view(groups@);
                assert(g1 =~= g0.push((group@, seq![id])));
                lemma_new_group(p0, g0, p1, group@);
            }
        }
        *self = LayoutBuilder { pixels, groups };
        id
    }

    /// The finished layout.
    pub fn build(self) -> (l: Layout)
        ensures
            l.pixels@ == self.pixels(),
            groups_view(l.groups@) == self.groups(),
            layout_wf(l.pixels@, groups_view(l.groups@)),
    {
        proof {
            use_type_invariant(&self);
        }
        Layout { pixels: self.pixels, groups: self.groups }
    }
}

proof fn lemma_append_to_group(
    p0: Seq<PixelLogical>,
    g0: Seq<(Seq<char>, Seq<u32>)>,
    p1: Seq<PixelLogical>,
    j: int,
    name: Seq<char>,
)
    requires
        layout_wf(p0, g0),
        p0.len() < u32::MAX,
        p1.len() == p0.len() + 1,
        forall|i: int| 0 <= i < p0.len() ==> #[trigger] p1[i] == p0[i],
        p1[p0.len() as int].id == p0.len(),
        p1[p0.len() as int].group@ == name,
        is_first_named(g0, name, j),
    ensures
        ({
            let g1 = g0.update(j, (name, g0[j].1.push(p0.len() as u32)));
            &&& layout_wf(p1, g1)
            &&& group_ids(g1, name) == group_ids(g0, name).push(p0.len() as u32)
            &&& forall|other: Seq<char>|
                other != name ==> #[trigger] group_ids(g1, other) == group_ids(g0, other)
        }),
{
    let n = p0.len() as u32;
    let g1 = g0.update(j, (name, g0[j].1.push(n)));
    assert forall|i: int| 0 <= i < p1.len() implies #[trigger] p1[i].id == i by {
        if i < p0.len() {
            assert(p1[i] == p0[i]);
        }
    }
    assert forall|j2: int, k: int| 0 <= j2 < g1.len() && 0 <= k < g1[j2].1.len() implies {
        &&& g1[j2].1[k] < p1.len()
        &&& p1[g1[j2].1[k] as int].group@ == g1[j2].0
    } by {
        if j2 == j && k == g0[j].1.len() {
        } else {
            assert(g1[j2].1[k] == g0[j2].1[k]);
            assert(p1[g0[j2].1[k] as int] == p0[g0[j2].1[k] as int]);
        }
    }
    assert forall|j2: int, k1: int, k2: int|
        0 <= j2 < g1.len() && 0 <= k1 < k2 < g1[j2].1.len() implies g1[j2].1[k1] < g1[j2].1[k2] by {
        if j2 == j && k2 == g0[j].1.len() {
            assert(g1[j2].1[k1] == g0[j].1[k1]);
        } else {
            assert(g1[j2].1[k1] == g0[j2].1[k1]);
            assert(g1[j2].1[k2] == g0[j2].1[k2]);
        }
    }
    assert forall|i: int| #![trigger p1[i]] 0 <= i < p1.len() implies exists|j2: int, k: int|
        0 <= j2 < g1.len() && 0 <= k < g1[j2].1.len() && g1[j2].0 == p1[i].group@
            && #[trigger] g1[j2].1[k] == i as u32 by {
        if i == p0.len() {
            let k = g0[j].1.len() as int;
            assert(g1[j].1[k] == i as u32);
        } else {
            assert(p1[i] == p0[i]);
            let (j2, k) = choose|j2: int, k: int|
                0 <= j2 < g0.len() && 0 <= k < g0[j2].1.len() && g0[j2].0 == p0[i].group@
                    && #[trigger] g0[j2].1[k] == i as u32;
            assert(g1[j2].1[k] == g0[j2].1[k]);
        }
    }
    assert(is_first_named(g1, name, j));
    lemma_first_named_is_unique(g1, name, j);
    lemma_first_named_is_unique(g0, name, j);
    assert forall|other: Seq<char>| other != name implies #[trigger] group_ids(g1, other)
        == group_ids(g0, other) by {
        lemma_same_names_other_group(g0, g1, j, other);
    }
}

proof fn lemma_same_names_other_group(
    g0: Seq<(Seq<char>, Seq<u32>)>,
    g1: Seq<(Seq<char>, Seq<u32>)>,
    j: int,
    other: Seq<char>,
)
    requires
        g1.len() == g0.len(),
        0 <= j < g0.len(),
        g0[j].0 != other,
        g1[j].0 == g0[j].0,
        forall|k: int| 0 <= k < g0.len() && k != j ==> #[trigger] g1[k] == g0[k],
    ensures
        group_ids(g1, other) == group_ids(g0, other),
{
    if exists|x: int| is_first_named(g0, other, x) {
        let x = choose|x: int| is_first_named(g0, other, x);
        assert(x != j);
        assert forall|k: int| 0 <= k < x implies g1[k].0 != other by {
            if k != j {
                assert(g1[k] == g0[k]);
            }
        }
        assert(is_first_named(g1, other, x));
        lemma_first_named_is_unique(g0, other, x);
        lemma_first_named_is_unique(g1, other, x);
    } else {
        assert forall|x: int| !is_first_named(g1, other, x) by {
            if is_first_named(g1, other, x) {
                assert(x != j);
                assert(g1[x] == g0[x]);
                assert forall|k: int| 0 <= k < x implies g0[k].0 != other by {
                    if k != j {
                        assert(g1[k] == g0[k]);
                    }
                }
                assert(is_first_named(g0, other, x));
            }
        }
    }
}

proof fn lemma_new_group(
    p0: Seq<PixelLogical>,
    g0: Seq<(Seq<char>, Seq<u32>)>,
    p1: Seq<PixelLogical>,
    name: Seq<char>,
)
    requires
        layout_wf(p0, g0),
        p0.len() < u32::MAX,
        p1.len() == p0.len() + 1,
        forall|i: int| 0 <= i < p0.len() ==> #[trigger] p1[i] == p0[i],
        p1[p0.len() as int].id == p0.len(),
        p1[p0.len() as int].group@ == name,
        forall|k: int| 0 <= k < g0.len() ==> g0[k].0 != name,
    ensures
        ({
            let g1 = g0.push((name, seq![p0.len() as u32]));
            &&& layout_wf(p1, g1)
            &&& group_ids(g1, name) == group_ids(g0, name).push(p0.len() as u32)
            &&& forall|other: Seq<char>|
                other != name ==> #[trigger] group_ids(g1, other) == group_ids(g0, other)
        }),
{
    let n = p0.len() as u32;
    let g1 = g0.push((name, seq![n]));
    assert forall|i: int| 0 <= i < p1.len() implies #[trigger] p1[i].id == i by {
        if i < p0.len() {
            assert(p1[i] == p0[i]);
        }
    }
    assert forall|j2: int, k: int| 0 <= j2 < g1.len() && 0 <= k < g1[j2].1.len() implies {
        &&& g1[j2].1[k] < p1.len()
        &&& p1[g1[j2].1[k] as int].group@ == g1[j2].0
    } by {
        if j2 < g0.len() {
            assert(g1[j2] == g0[j2]);
            assert(p1[g0[j2].1[k] as int] == p0[g0[j2].1[k] as int]);
        }
    }
    assert forall|j2: int, k1: int, k2: int|
        0 <= j2 < g1.len() && 0 <= k1 < k2 < g1[j2].1.len() implies g1[j2].1[k1] < g1[j2].1[k2] by {
        if j2 < g0.len() {
            assert(g1[j2] == g0[j2]);
        }
    }
    assert forall|i: int| #![trigger p1[i]] 0 <= i < p1.len() implies exists|j2: int, k: int|
        0 <= j2 < g1.len() && 0 <= k < g1[j2].1.len() && g1[j2].0 == p1[i].group@
            && #[trigger] g1[j2].1[k] == i as u32 by {
        if i == p0.len() {
            assert(g1[g0.len() as int].1[0] == i as u32);
        } else {
            assert(p1[i] == p0[i]);
            let (j2, k) = choose|j2: int, k: int|
                0 <= j2 < g0.len() && 0 <= k < g0[j2].1.len() && g0[j2].0 == p0[i].group@
                    && #[trigger] g0[j2].1[k] == i as u32;
            assert(g1[j2] == g0[j2]);
        }
    }
    assert(is_first_named(g1, name, g0.len() as int));
    lemma_first_named_is_unique(g1, name, g0.len() as int);
    assert forall|x: int| !is_first_named(g0, name, x) by {}
    assert(group_ids(g0, name) =~= Seq::<u32>::empty());
    assert(group_ids(g1, name) =~= group_ids(g0, name).push(n));
    assert forall|other: Seq<char>| other != name implies #[trigger] group_ids(g1, other)
        == group_ids(g0, other) by {
        if exists|x: int| is_first_named(g0, other, x) {
            let x = choose|x: int| is_first_named(g0, other, x);
            assert(g1[x] == g0[x]);
            assert(is_first_named(g1, other, x));
            lemma_first_named_is_unique(g0, other, x);
            lemma_first_named_is_unique(g1, other, x);
        } else {
            assert forall|x: int| !is_first_named(g1, other, x) by {
                if is_first_named(g1, other, x) && x < g0.len() {
                    assert(g1[x] == g0[x]);
                    assert forall|k: int| 0 <= k < x implies g0[k].0 != other by {
                        assert(g1[k] == g0[k]);
                    }
                    assert(is_first_named(g0, other, x));
                }
            }
        }
    }
}

/// The column of wiring position `k` in row `row` of a `w`-wide matrix: with `serpentine`,
/// every other row runs in reverse.
pub open spec fn matrix_col(w: nat, serpentine: bool, row: nat, k: nat) -> nat {
    if serpentine && row % 2 == 1 {
        (w - 1 - k) as nat
    } else {
        k
    }
}

/// The grid cell `(column, row)` of every id of a `w`×`h` matrix, in wiring order: ids run
/// row by row, and an id follows the physical fold, not the visual column.
pub open spec fn matrix_cells_spec(w: nat, h: nat, serpentine: bool) -> Seq<(u32, u32)> {
    Seq::new(
        w * h,
        |i: int| (matrix_col(w, serpentine, (i / w as int) as nat, (i % w as int) as nat) as u32, (i / w as int) as u32),
    )
}

/// The grid cell of every id of a `w`×`h` matrix, in wiring order.
pub fn matrix_cells(w: u32, h: u32, serpentine: bool) -> (v: Vec<(u32, u32)>)
    requires
        w * h <= usize::MAX,
    ensures
        v@ == matrix_cells_spec(w as nat, h as nat, serpentine),
{
    let mut v: Vec<(u32, u32)> = Vec::new();
    let mut row: u32 = 0;
    while row < h
        invariant
            row <= h,
            w * h <= usize::MAX,
            v@ == matrix_cells_spec(w as nat, h as nat, serpentine).take(row * w),
        decreases h - row,
    {
        let mut col: u32 = 0;
        while col < w
            invariant
                row < h,
                col <= w,
                w * h <= usize::MAX,
                v@ == matrix_cells_spec(w as nat, h as nat, serpentine).take(row * w + col),
            decreases w - col,
        {
            let c = if serpentine && row % 2 == 1 { w - 1 - col } else { col };
            proof {
                let i = row * w + col;
                assert((row + 1) * w <= h * w) by (nonlinear_arith)
                    requires
                        row < h,
                ;
                assert(i / w as int == row && i % w as int == col) by (nonlinear_arith)
                    requires
                        i == row * w + col,
                        col < w,
                ;
                assert(w * h == h * w) by (nonlinear_arith);
                assert((row + 1) * w == row * w + w) by (nonlinear_arith);
                assert(matrix_cells_spec(w as nat, h as nat, serpentine)[i as int] == (c, row));
            }
            v.push((c, row));
            proof {
                let i = row * w + col;
                assert(v@ =~= matrix_cells_spec(w as nat, h as nat, serpentine).take(i + 1));
            }
            col = col + 1;
        }
        proof {
            assert(row * w + w == (row + 1) * w) by (nonlinear_arith);
        }
        row = row + 1;
    }
    proof {
        assert(h * w == w * h) by (nonlinear_arith);
        assert(v@ =~= matrix_cells_spec(w as nat, h as nat, serpentine));
    }
    v
}

/// Law: a matrix's wiring order visits every cell of the grid exactly once: each id lands in
/// the grid, and two ids never share a cell.
pub proof fn lemma_matrix_cells_cover_the_grid_once(w: nat, h: nat, serpentine: bool, a: int, b: int)
    requires
        w * h <= u32::MAX,
        0 <= a < w * h,
        0 <= b < w * h,
        a != b,
    ensures
        ({
            let cells = matrix_cells_spec(w, h, serpentine);
            &&& cells[a].0 < w && cells[a].1 < h
            &&& cells[a] != cells[b]
        }),
{
    let wi = w as int;
    assert(wi > 0) by (nonlinear_arith)
        requires
            0 <= a < w * h,
            wi == w,
    ;
    let (ra, ka) = (a / wi, a % wi);
    let (rb, kb) = (b / wi, b % wi);
    assert(a == ra * wi + ka && 0 <= ka < wi) by (nonlinear_arith)
        requires
            wi > 0,
            ra == a / wi,
            ka == a % wi,
    ;
    assert(b == rb * wi + kb && 0 <= kb < wi) by (nonlinear_arith)
        requires
            wi > 0,
            rb == b / wi,
            kb == b % wi,
    ;
    assert(0 <= ra < h) by (nonlinear_arith)
        requires
            wi > 0,
            a == ra * wi + ka,
            0 <= ka < wi,
            0 <= a < wi * h,
    ;
    assert(0 <= rb < h) by (nonlinear_arith)
        requires
            wi > 0,
            b == rb * wi + kb,
            0 <= kb < wi,
            0 <= b < wi * h,
    ;
    assert(h <= u32::MAX && w <= u32::MAX) by (nonlinear_arith)
        requires
            wi > 0,
            0 <= ra < h,
            w * h <= u32::MAX,
            wi == w,
    ;
    let ca = matrix_col(w, serpentine, ra as nat, ka as nat);
    let cb = matrix_col(w, serpentine, rb as nat, kb as nat);
    if ra == rb && ca == cb {
        assert(ka == kb);
        assert(a == b);
    }
}

/// Law: serpentine wiring follows the wire. In a serpentine matrix id 0 sits at `(0, 0)`,
/// and every next id is physically adjacent to the one before: one column away in the same
/// row, or, at a fold, the same column in the next row. Without serpentine, id `k` sits at
/// `(k % w, k / w)`: every row runs left to right.
pub proof fn lemma_serpentine_ids_are_adjacent(w: nat, h: nat, k: int)
    requires
        w * h <= u32::MAX,
        0 <= k,
        k + 1 < w * h,
    ensures
        matrix_cells_spec(w, h, true)[0] == (0u32, 0u32),
        ({
            let a = matrix_cells_spec(w, h, true)[k];
            let b = matrix_cells_spec(w, h, true)[k + 1];
            ||| (b.1 == a.1 && (b.0 == a.0 + 1 || a.0 == b.0 + 1))
            ||| (b.1 == a.1 + 1 && b.0 == a.0)
        }),
        matrix_cells_spec(w, h, false)[k] == ((k % w as int) as u32, (k / w as int) as u32),
{
    let wi = w as int;
    assert(wi > 0) by (nonlinear_arith)
        requires
            0 <= k + 1 < w * h,
            wi == w,
    ;
    let r = k / wi;
    let c = k % wi;
    assert(k == r * wi + c && 0 <= c < wi && r >= 0) by (nonlinear_arith)
        requires
            wi > 0,
            k >= 0,
            r == k / wi,
            c == k % wi,
    ;
    assert(r < h) by (nonlinear_arith)
        requires
            wi > 0,
            k == r * wi + c,
            0 <= c < wi,
            k + 1 < wi * h,
    ;
    assert(w <= u32::MAX && h <= u32::MAX) by (nonlinear_arith)
        requires
            wi > 0,
            0 <= r < h,
            w * h <= u32::MAX,
            wi == w,
    ;
    assert(0int / wi == 0 && 0int % wi == 0) by (nonlinear_arith)
        requires
            wi > 0,
    ;
    if c + 1 < wi {
        assert((k + 1) / wi == r && (k + 1) % wi == c + 1) by (nonlinear_arith)
            requires
                wi > 0,
                k == r * wi + c,
                0 <= c,
                c + 1 < wi,
        ;
    } else {
        assert((k + 1) / wi == r + 1 && (k + 1) % wi == 0) by (nonlinear_arith)
            requires
                wi > 0,
                k == r * wi + c,
                c + 1 == wi,
        ;
    }
}

} // verus!
