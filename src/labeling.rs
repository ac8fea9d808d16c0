//! Eight-connected component labelling of one polarity of a mask, and the
//! table of component sizes derived from a labelling.
use vstd::prelude::*;
use crate::raster::{Mask, MAX_PIXELS};

verus! {

/// Cells `a` and `b` of a row-major grid of the given width are distinct and
/// touch by an edge or a corner.
pub open spec fn neighbours(width: nat, a: int, b: int) -> bool {
    &&& width > 0
    &&& a != b
    &&& -1 <= a % (width as int) - b % (width as int) <= 1
    &&& -1 <= a / (width as int) - b / (width as int) <= 1
}

/// `path` is a walk over in-grid cells that all share the polarity of its
/// first cell, each step going to an eight-neighbour.
pub open spec fn is_path(cells: Seq<bool>, width: nat, path: Seq<int>) -> bool {
    &&& path.len() > 0
    &&& forall|k: int|
        #![trigger path[k]]
        0 <= k < path.len() ==> 0 <= path[k] < cells.len() && cells[path[k]] == cells[path[0]]
    &&& forall|k: int|
        #![trigger path[k], path[k + 1]]
        0 <= k < path.len() - 1 ==> neighbours(width, path[k], path[k + 1])
}

/// Cells `a` and `b` lie in the same eight-connected component of their polarity.
pub open spec fn connected(cells: Seq<bool>, width: nat, a: int, b: int) -> bool {
    exists|path: Seq<int>|
        #![trigger is_path(cells, width, path)]
        is_path(cells, width, path) && path[0] == a && path.last() == b
}

/// How many of the first `n` cells lie in the component of cell `p`.
pub open spec fn connected_count(cells: Seq<bool>, width: nat, p: int, n: nat) -> nat
    decreases n,
{
    if n == 0 {
        0
    } else {
        connected_count(cells, width, p, (n - 1) as nat) + if connected(cells, width, p, n - 1) {
            1nat
        } else {
            0nat
        }
    }
}

/// Number of cells in the eight-connected component of cell `p`, within `p`'s polarity.
pub open spec fn component_size(cells: Seq<bool>, width: nat, p: int) -> nat {
    connected_count(cells, width, p, cells.len())
}

/// How many of the first `n` entries of `labels` equal `l`.
pub open spec fn label_count(labels: Seq<u32>, l: int, n: nat) -> nat
    decreases n,
{
    if n == 0 {
        0
    } else {
        label_count(labels, l, (n - 1) as nat) + if labels[n - 1] as int == l {
            1nat
        } else {
            0nat
        }
    }
}

/// `labels` labels the cells whose value is `polarity`: such a cell carries a
/// nonzero id, two of them share an id exactly when they are eight-connected,
/// every other cell carries the reserved id 0, and no id exceeds the cell count.
pub open spec fn is_labelling(cells: Seq<bool>, width: nat, polarity: bool, labels: Seq<u32>) -> bool {
    &&& labels.len() == cells.len()
    &&& forall|i: int|
        #![trigger labels[i]]
        0 <= i < labels.len() ==> (labels[i] == 0 <==> cells[i] != polarity) && labels[i]
            <= cells.len()
    &&& forall|i: int, j: int|
        #![trigger labels[i], labels[j]]
        0 <= i < labels.len() && 0 <= j < labels.len() && cells[i] == polarity && cells[j]
            == polarity ==> (labels[i] == labels[j] <==> connected(cells, width, i, j))
}

/// Relies on `imageproc::region_labelling::connected_components` with
/// `Connectivity::Eight`: each pixel equal to the background value gets 0, the
/// others the id of their eight-connected component, ids counted up from 1 in
/// the order in which components are first met. It panics on 2^32 pixels or
/// more, and on a single pixel that is not background (its union-find forest
/// then has one element while the pixel's id is 1).
#[verifier::external_body]
fn connected_components_eight(width: u32, height: u32, cells: &Vec<bool>, background: bool) -> (r:
    Vec<u32>)
    requires
        cells@.len() == width as nat * height as nat,
        cells@.len() <= MAX_PIXELS,
        cells@.len() != 1 || cells@[0] == background,
    ensures
        is_labelling(cells@, width as nat, !background, r@),
{
    let pixels: Vec<u8> = cells.iter().map(|&c| u8::from(c)).collect();
    let image = image::GrayImage::from_raw(width, height, pixels).unwrap();
    imageproc::region_labelling::connected_components(
        &image,
        imageproc::region_labelling::Connectivity::Eight,
        image::Luma([u8::from(background)]),
    ).into_raw()
}

/// Which cells of a mask a labelling pass treats as its components.
#[derive(Clone, Copy, Debug, PartialEq, Eq, Structural)]
pub enum Polarity {
    Foreground,
    Background,
}

impl Polarity {
    /// The mask value (`true` is FOREGROUND) of the cells of this polarity.
    pub open spec fn spec_value(self) -> bool {
        self == Polarity::Foreground
    }

    pub fn value(self) -> (r: bool)
        ensures
            r == self.spec_value(),
    {
        match self {
            Polarity::Foreground => true,
            Polarity::Background => false,
        }
    }
}

/// Component ids for every cell of a mask, for one polarity; 0 marks a cell
/// of the other polarity.
pub struct LabelMap {
    width: u32,
    height: u32,
    labels: Vec<u32>,
}

impl LabelMap {
    pub closed spec fn spec_width(&self) -> nat {
        self.width as nat
    }

    pub closed spec fn spec_height(&self) -> nat {
        self.height as nat
    }

    pub closed spec fn view_labels(&self) -> Seq<u32> {
        self.labels@
    }

    pub fn width(&self) -> (r: u32)
        ensures
            r == self.spec_width(),
    {
        self.width
    }

    pub fn height(&self) -> (r: u32)
        ensures
            r == self.spec_height(),
    {
        self.height
    }

    pub fn labels(&self) -> (r: &Vec<u32>)
        ensures
            r@ == self.view_labels(),
    {
        &self.labels
    }

    /// `self` is a labelling of `mask` for `polarity`.
    pub open spec fn labels_mask(&self, mask: &Mask, polarity: Polarity) -> bool {
        &&& self.spec_width() == mask.spec_width()
        &&& self.spec_height() == mask.spec_height()
        &&& is_labelling(mask.view_cells(), mask.spec_width(), polarity.spec_value(), self.view_labels())
    }
}

/// Labels the eight-connected components of the cells of `polarity`.
/// Ids are consistent within one map only; what is fixed is the partition.
pub fn label(mask: &Mask, polarity: Polarity) -> (r: LabelMap)
    requires
        mask.wf(),
    ensures
        r.labels_mask(mask, polarity),
{
    let cells = mask.cells();
    let labels = if cells.len() == 1 && cells[0] == polarity.value() {
        proof {
            let path = seq![0int];
            assert(is_path(cells@, mask.spec_width(), path));
            assert(connected(cells@, mask.spec_width(), 0, 0));
        }
        vec![1u32]
    } else {
        connected_components_eight(mask.width(), mask.height(), cells, !polarity.value())
    };
    LabelMap { width: mask.width(), height: mask.height(), labels }
}

/// Pixel count of each component id of a labelling. The reserved id 0 has no
/// entry: `counts[k]` is the size of the component with id `k + 1`.
pub struct ComponentSizes {
    counts: Vec<usize>,
}

impl ComponentSizes {
    pub closed spec fn view_counts(&self) -> Seq<usize> {
        self.counts@
    }

    /// The size recorded for component id `id`; 0 for the reserved id and
    /// for ids past the table.
    pub open spec fn spec_size_of(&self, id: int) -> nat {
        if 1 <= id <= self.view_counts().len() {
            self.view_counts()[id - 1] as nat
        } else {
            0
        }
    }

    /// `self` gives, for every nonzero id that `labels` uses, how many cells carry it.
    pub open spec fn counts_labels(&self, labels: Seq<u32>) -> bool {
        &&& forall|i: int| 0 <= i < labels.len() ==> labels[i] <= self.view_counts().len()
        &&& forall|l: int|
            #![trigger self.spec_size_of(l)]
            1 <= l <= self.view_counts().len() ==> self.spec_size_of(l) == label_count(
                labels,
                l,
                labels.len(),
            )
    }

    pub fn counts(&self) -> (r: &Vec<usize>)
        ensures
            r@ == self.view_counts(),
    {
        &self.counts
    }

    /// Pixel count of the component with id `id`.
    pub fn size_of(&self, id: u32) -> (r: usize)
        ensures
            r == self.spec_size_of(id as int),
    {
        if id == 0 || id as usize > self.counts.len() {
            0
        } else {
            self.counts[id as usize - 1]
        }
    }
}

proof fn lemma_label_count_step(labels: Seq<u32>, l: int, n: nat)
    ensures
        label_count(labels, l, n + 1) == label_count(labels, l, n) + if labels[n as int] as int
            == l {
            1nat
        } else {
            0nat
        },
{
}

proof fn lemma_label_count_bound(labels: Seq<u32>, l: int, n: nat)
    ensures
        label_count(labels, l, n) <= n,
    decreases n,
{
    if n > 0 {
        lemma_label_count_bound(labels, l, (n - 1) as nat);
    }
}

/// Counts the cells of each component id in one scan of the map.
pub fn sizes(map: &LabelMap) -> (r: ComponentSizes)
    requires
        forall|i: int| 0 <= i < map.view_labels().len() ==> map.view_labels()[i] <= map.view_labels().len(),
    ensures
        r.counts_labels(map.view_labels()),
{
    let labels = map.labels();
    let n = labels.len();
    let mut max: u32 = 0;
    let mut i: usize = 0;
    while i < n
        invariant
            n == labels@.len(),
            i <= n,
            forall|k: int| 0 <= k < i ==> labels@[k] <= max,
            max <= n,
            forall|k: int| 0 <= k < n ==> labels@[k] <= n,
        decreases n - i,
    {
        if labels[i] > max {
            max = labels[i];
        }
        i = i + 1;
    }
    let mut counts: Vec<usize> = vec![0usize; max as usize];
    let mut i: usize = 0;
    while i < n
        invariant
            n == labels@.len(),
            i <= n,
            counts@.len() == max as nat,
            forall|k: int| 0 <= k < n ==> labels@[k] <= max,
            forall|l: int|
                #![trigger counts@[l]]
                0 <= l < counts@.len() ==> counts@[l] == label_count(labels@, l + 1, i as nat),
        decreases n - i,
    {
        let id = labels[i];
        proof {
            lemma_label_count_bound(labels@, id as int, i as nat);
            assert forall|l: int| 0 <= l < counts@.len() implies #[trigger] label_count(labels@, l + 1, i as nat + 1)
                == label_count(labels@, l + 1, i as nat) + if labels@[i as int] as int == l + 1 {
                1nat
            } else {
                0nat
            } by {
                lemma_label_count_step(labels@, l + 1, i as nat);
            }
        }
        if id > 0 {
            let c = counts[id as usize - 1];
            counts.set(id as usize - 1, c + 1);
        }
        i = i + 1;
    }
    let r = ComponentSizes { counts };
    assert forall|l: int| 1 <= l <= r.view_counts().len() implies #[trigger] r.spec_size_of(l) == label_count(
        labels@,
        l,
        labels@.len(),
    ) by {
        assert(counts@[l - 1] == label_count(labels@, l, n as nat));
    }
    r
}

proof fn lemma_connected_count_matches(
    cells: Seq<bool>,
    width: nat,
    polarity: bool,
    labels: Seq<u32>,
    p: int,
    n: nat,
)
    requires
        is_labelling(cells, width, polarity, labels),
        0 <= p < cells.len(),
        cells[p] == polarity,
        n <= cells.len(),
    ensures
        label_count(labels, labels[p] as int, n) == connected_count(cells, width, p, n),
    decreases n,
{
    if n > 0 {
        let j = n - 1;
        lemma_connected_count_matches(cells, width, polarity, labels, p, (n - 1) as nat);
        if cells[j] != polarity {
            assert(labels[j] == 0);
            assert(labels[p] != 0);
            if connected(cells, width, p, j) {
                let path = choose|path: Seq<int>|
                    #![trigger is_path(cells, width, path)]
                    is_path(cells, width, path) && path[0] == p && path.last() == j;
                assert(cells[path[path.len() - 1]] == cells[path[0]]);
            }
        } else {
            assert(labels[p] == labels[j] <==> connected(cells, width, p, j));
        }
    }
}

/// For a cell of the labelled polarity, the size table gives exactly the
/// size of its eight-connected component.
pub proof fn lemma_size_of_component(
    mask: &Mask,
    polarity: Polarity,
    map: &LabelMap,
    table: &ComponentSizes,
    p: int,
)
    requires
        mask.wf(),
        map.labels_mask(mask, polarity),
        table.counts_labels(map.view_labels()),
        0 <= p < mask.view_cells().len(),
        mask.view_cells()[p] == polarity.spec_value(),
    ensures
        table.spec_size_of(map.view_labels()[p] as int) == component_size(
            mask.view_cells(),
            mask.spec_width(),
            p,
        ),
{
    lemma_connected_count_matches(
        mask.view_cells(),
        mask.spec_width(),
        polarity.spec_value(),
        map.view_labels(),
        p,
        mask.view_cells().len(),
    );
}

/// Component ids carry no meaning of their own: any two labellings of the
/// same mask and polarity put two cells in one component in exactly the same
/// cases.
pub proof fn lemma_partition_independent_of_ids(
    cells: Seq<bool>,
    width: nat,
    polarity: bool,
    labels_a: Seq<u32>,
    labels_b: Seq<u32>,
    i: int,
    j: int,
)
    requires
        is_labelling(cells, width, polarity, labels_a),
        is_labelling(cells, width, polarity, labels_b),
        0 <= i < cells.len(),
        0 <= j < cells.len(),
    ensures
        labels_a[i] == labels_a[j] <==> labels_b[i] == labels_b[j],
{
    if cells[i] == polarity && cells[j] == polarity {
        assert(labels_a[i] == labels_a[j] <==> connected(cells, width, i, j));
        assert(labels_b[i] == labels_b[j] <==> connected(cells, width, i, j));
    } else if cells[i] != polarity && cells[j] != polarity {
        assert(labels_a[i] == 0 && labels_a[j] == 0);
        assert(labels_b[i] == 0 && labels_b[j] == 0);
    } else {
        assert(labels_a[i] == 0 || labels_a[j] == 0);
        assert(labels_a[i] != 0 || labels_a[j] != 0);
        assert(labels_b[i] == 0 || labels_b[j] == 0);
        assert(labels_b[i] != 0 || labels_b[j] != 0);
    }
}

proof fn lemma_connected_symmetric(cells: Seq<bool>, width: nat, a: int, b: int)
    requires
        connected(cells, width, a, b),
    ensures
        connected(cells, width, b, a),
{
    let path = choose|path: Seq<int>|
        #![trigger is_path(cells, width, path)]
        is_path(cells, width, path) && path[0] == a && path.last() == b;
    let n = path.len();
    let rev = Seq::new(n, |k: int| path[n - 1 - k]);
    assert forall|k: int| #![trigger rev[k]] 0 <= k < rev.len() implies 0 <= rev[k] < cells.len()
        && cells[rev[k]] == cells[rev[0]] by {
        assert(path[n - 1 - k] == rev[k]);
        assert(path[n - 1] == rev[0]);
    }
    assert forall|k: int| #![trigger rev[k], rev[k + 1]] 0 <= k < rev.len() - 1 implies neighbours(
        width,
        rev[k],
        rev[k + 1],
    ) by {
        let k2 = n - 2 - k;
        assert(neighbours(width, path[k2], path[k2 + 1]));
        assert(rev[k] == path[k2 + 1]);
        assert(rev[k + 1] == path[k2]);
    }
    assert(is_path(cells, width, rev));
}

proof fn lemma_connected_transitive(cells: Seq<bool>, width: nat, a: int, b: int, c: int)
    requires
        connected(cells, width, a, b),
        connected(cells, width, b, c),
    ensures
        connected(cells, width, a, c),
{
    let p1 = choose|path: Seq<int>|
        #![trigger is_path(cells, width, path)]
        is_path(cells, width, path) && path[0] == a && path.last() == b;
    let p2 = choose|path: Seq<int>|
        #![trigger is_path(cells, width, path)]
        is_path(cells, width, path) && path[0] == b && path.last() == c;
    let n1 = p1.len();
    let cat = p1 + p2.subrange(1, p2.len() as int);
    assert(cells[p1[n1 - 1]] == cells[p1[0]]);
    assert forall|k: int| #![trigger cat[k]] 0 <= k < cat.len() implies 0 <= cat[k] < cells.len()
        && cat[k] == (if k < n1 { p1[k] } else { p2[k - n1 + 1] })
        && cells[cat[k]] == cells[cat[0]] by {
        if k >= n1 {
            assert(cells[p2[k - n1 + 1]] == cells[p2[0]]);
        }
    }
    assert forall|k: int| #![trigger cat[k], cat[k + 1]] 0 <= k < cat.len() - 1 implies neighbours(
        width,
        cat[k],
        cat[k + 1],
    ) by {
        if k < n1 - 1 {
            assert(neighbours(width, p1[k], p1[k + 1]));
        } else if k == n1 - 1 {
            assert(p2.len() > 1);
            let z: int = 0;
            assert(0 <= z < p2.len() - 1);
            assert(neighbours(width, p2[z], p2[z + 1]));
            assert(cat[k] == p1[n1 - 1]);
        } else {
            let k2 = k - n1 + 1;
            assert(neighbours(width, p2[k2], p2[k2 + 1]));
        }
    }
    assert(is_path(cells, width, cat));
    assert(cat.last() == c) by {
        if p2.len() > 1 {
            assert(cat[cat.len() - 1] == p2[p2.len() - 1]);
        }
    }
}

proof fn lemma_connected_count_shared(cells: Seq<bool>, width: nat, a: int, b: int, n: nat)
    requires
        connected(cells, width, a, b),
    ensures
        connected_count(cells, width, a, n) == connected_count(cells, width, b, n),
    decreases n,
{
    if n > 0 {
        lemma_connected_count_shared(cells, width, a, b, (n - 1) as nat);
        let k = n - 1;
        lemma_connected_symmetric(cells, width, a, b);
        if connected(cells, width, a, k) {
            lemma_connected_transitive(cells, width, b, a, k);
        }
        if connected(cells, width, b, k) {
            lemma_connected_transitive(cells, width, a, b, k);
        }
    }
}

/// Two connected cells have the same polarity and lie in a component of the
/// same size.
pub proof fn lemma_connected_same_component(cells: Seq<bool>, width: nat, a: int, b: int)
    requires
        connected(cells, width, a, b),
    ensures
        cells[a] == cells[b],
        component_size(cells, width, a) == component_size(cells, width, b),
{
    let path = choose|path: Seq<int>|
        #![trigger is_path(cells, width, path)]
        is_path(cells, width, path) && path[0] == a && path.last() == b;
    assert(cells[path[path.len() - 1]] == cells[path[0]]);
    lemma_connected_count_shared(cells, width, a, b, cells.len());
}

} // verus!
