//! The tree walk as a plan: the sequence of steps that processing a manifest
//! performs, in order, with every path resolved relative to an anchor.
//!
//! Each item opens a fresh workspace, runs its fetch (and build), makes sure
//! its destination exists, copies its assets, walks its children with its
//! destination as their base, and closes its workspace. Workspaces nest: a
//! step anchored at the workspace means the innermost one open.
use vstd::prelude::*;
use crate::manifest::Item;
use crate::manifest::Manifest;
use crate::path::{byte_views, copy_bytes, file_name, file_name_of};

verus! {

/// What a planned path is relative to.
#[derive(Clone, Copy, PartialEq, Eq, Structural, Debug)]
pub enum Anchor {
    /// The directory the manifest was found in.
    Root,
    /// The innermost open workspace.
    Workspace,
}

/// Which of an item's commands a step runs.
#[derive(Clone, Copy, PartialEq, Eq, Structural, Debug)]
pub enum Stage {
    Get,
    Build,
}

/// A path: its anchor joined with each of `parts` in turn.
#[derive(Debug)]
pub struct Place {
    pub anchor: Anchor,
    pub parts: Vec<Vec<u8>>,
}

/// The mathematical value of a `Place`.
pub struct PlaceModel {
    pub anchor: Anchor,
    pub parts: Seq<Seq<u8>>,
}

impl View for Place {
    type V = PlaceModel;

    open spec fn view(&self) -> PlaceModel {
        PlaceModel { anchor: self.anchor, parts: byte_views(self.parts@) }
    }
}

/// One step of processing a manifest.
#[derive(Debug)]
pub enum Step {
    /// Create a fresh workspace; it becomes the innermost one.
    Open,
    /// Run a shell command in a directory; a failure ends the run.
    Run { stage: Stage, command: String, dir: Place },
    /// Create a directory, with its parents, unless it exists.
    EnsureDir { dir: Place },
    /// Copy an asset from `from` into the directory `into`; `target` is where
    /// it lands, which decides whether it is copied at all.
    Copy { asset: Vec<u8>, from: Place, into: Place, target: Place, overwrite: bool },
    /// An asset whose path names no file: the run ends here.
    BadAsset { asset: Vec<u8> },
    /// Remove the innermost workspace and all it holds.
    Close,
}

/// The mathematical value of a `Step`.
pub enum StepModel {
    Open,
    Run { stage: Stage, command: Seq<char>, dir: PlaceModel },
    EnsureDir { dir: PlaceModel },
    Copy {
        asset: Seq<u8>,
        from: PlaceModel,
        into: PlaceModel,
        target: PlaceModel,
        overwrite: bool,
    },
    BadAsset { asset: Seq<u8> },
    Close,
}

impl View for Step {
    type V = StepModel;

    open spec fn view(&self) -> StepModel {
        match self {
            Step::Open => StepModel::Open,
            Step::Run { stage, command, dir } => StepModel::Run {
                stage: *stage,
                command: command@,
                dir: dir@,
            },
            Step::EnsureDir { dir } => StepModel::EnsureDir { dir: dir@ },
            Step::Copy { asset, from, into, target, overwrite } => StepModel::Copy {
                asset: asset@,
                from: from@,
                into: into@,
                target: target@,
                overwrite: *overwrite,
            },
            Step::BadAsset { asset } => StepModel::BadAsset { asset: asset@ },
            Step::Close => StepModel::Close,
        }
    }
}

/// The values of a sequence of steps.
pub open spec fn models(steps: Seq<Step>) -> Seq<StepModel> {
    steps.map_values(|s: Step| s@)
}

/// The value of an optional path.
pub open spec fn opt_view(o: Option<Vec<u8>>) -> Option<Seq<u8>> {
    match o {
        Some(v) => Some(v@),
        None => None,
    }
}

/// `p` with `part` joined on, or `p` itself when there is no part.
pub open spec fn under(p: PlaceModel, part: Option<Seq<u8>>) -> PlaceModel {
    match part {
        Some(s) => PlaceModel { anchor: p.anchor, parts: p.parts.push(s) },
        None => p,
    }
}

/// The place the manifest's directory stands for.
pub open spec fn root_model() -> PlaceModel {
    PlaceModel { anchor: Anchor::Root, parts: Seq::empty() }
}

/// An item's effective source directory: its workspace, or the `source`
/// subdirectory of it.
pub open spec fn source_dir(item: Item) -> PlaceModel {
    under(PlaceModel { anchor: Anchor::Workspace, parts: Seq::empty() }, opt_view(item.source))
}

/// An item's effective destination directory: its base, or the `dest`
/// subdirectory of it. Its children take it as their base.
pub open spec fn dest_dir(item: Item, base: PlaceModel) -> PlaceModel {
    under(base, opt_view(item.dest))
}

/// The step for one asset of an item.
pub open spec fn asset_step(item: Item, base: PlaceModel, asset: Seq<u8>) -> StepModel {
    match file_name(asset) {
        Some(name) => StepModel::Copy {
            asset,
            from: under(source_dir(item), Some(asset)),
            into: dest_dir(item, base),
            target: under(dest_dir(item, base), Some(name)),
            overwrite: item.overwrite is Some,
        },
        None => StepModel::BadAsset { asset },
    }
}

/// The steps for the assets of an item, in declared order.
pub open spec fn asset_steps(item: Item, base: PlaceModel) -> Seq<StepModel> {
    Seq::new(item.assets.len() as nat, |i: int| asset_step(item, base, item.assets@[i]@))
}

/// The fetch and, when there is one, the build of an item.
pub open spec fn command_steps(item: Item) -> Seq<StepModel> {
    let get = StepModel::Run {
        stage: Stage::Get,
        command: item.get@,
        dir: PlaceModel { anchor: Anchor::Workspace, parts: Seq::empty() },
    };
    match item.build {
        Some(b) => seq![get, StepModel::Run { stage: Stage::Build, command: b@, dir: source_dir(item) }],
        None => seq![get],
    }
}

/// Every step of processing one item with the given base directory.
pub open spec fn item_steps(item: Item, base: PlaceModel) -> Seq<StepModel>
    decreases item,
{
    let kids = match item.children {
        Some(c) => items_steps(c@, dest_dir(item, base)),
        None => Seq::empty(),
    };
    seq![StepModel::Open] + command_steps(item) + seq![StepModel::EnsureDir { dir: dest_dir(item, base) }]
        + asset_steps(item, base) + kids + seq![StepModel::Close]
}

/// Every step of processing a sequence of sibling items, one after another.
pub open spec fn items_steps(items: Seq<Item>, base: PlaceModel) -> Seq<StepModel>
    decreases items,
{
    if items.len() == 0 {
        Seq::empty()
    } else {
        items_steps(items.drop_last(), base) + item_steps(items.last(), base)
    }
}

impl Place {
    /// The manifest's directory.
    pub fn root() -> (r: Place)
        ensures
            r@ == root_model(),
    {
        let r = Place { anchor: Anchor::Root, parts: Vec::new() };
        assert(r@.parts =~= Seq::<Seq<u8>>::empty());
        r
    }

    /// The innermost workspace itself.
    pub fn workspace() -> (r: Place)
        ensures
            r@ == (PlaceModel { anchor: Anchor::Workspace, parts: Seq::empty() }),
    {
        let r = Place { anchor: Anchor::Workspace, parts: Vec::new() };
        assert(r@.parts =~= Seq::<Seq<u8>>::empty());
        r
    }

    /// This place with `part` joined on, when there is one.
    pub fn under(&self, part: &Option<Vec<u8>>) -> (r: Place)
        ensures
            r@ == under(self@, opt_view(*part)),
    {
        let mut parts: Vec<Vec<u8>> = Vec::new();
        let mut i: usize = 0;
        while i < self.parts.len()
            invariant
                i <= self.parts.len(),
                byte_views(parts@) =~= self@.parts.subrange(0, i as int),
            decreases self.parts.len() - i,
        {
            assert(self@.parts[i as int] == self.parts@[i as int]@);
            let ghost prev = parts@;
            parts.push(copy_bytes(&self.parts[i]));
            assert(parts@ == prev.push(parts@.last()));
            assert(byte_views(parts@) =~= byte_views(prev).push(parts@.last()@));
            i = i + 1;
            assert(byte_views(parts@) =~= self@.parts.subrange(0, i as int));
        }
        assert(self@.parts.subrange(0, i as int) =~= self@.parts);
        match part {
            Some(s) => {
                parts.push(copy_bytes(s));
                assert(byte_views(parts@) =~= self@.parts.push(s@));
            },
            None => {},
        }
        Place { anchor: self.anchor, parts }
    }
}

fn copy_string(s: &String) -> (r: String)
    ensures
        r@ == s@,
{
    s.clone()
}

/// Appends the steps of one asset of `item`.
fn push_asset(item: &Item, base: &Place, asset: &Vec<u8>, out: &mut Vec<Step>)
    ensures
        models(final(out)@) == models(old(out)@).push(asset_step(*item, base@, asset@)),
{
    let step = match file_name_of(asset) {
        Some(name) => {
            let src = Place::workspace().under(&item.source);
            let into = base.under(&item.dest);
            let target = into.under(&Some(name));
            Step::Copy {
                asset: copy_bytes(asset),
                from: src.under(&Some(copy_bytes(asset))),
                into,
                target,
                overwrite: item.overwrite_enabled(),
            }
        },
        None => Step::BadAsset { asset: copy_bytes(asset) },
    };
    out.push(step);
    assert(models(out@) =~= models(old(out)@).push(asset_step(*item, base@, asset@)));
}

/// Appends the steps of one item processed with base directory `base`.
fn push_item(item: &Item, base: &Place, out: &mut Vec<Step>)
    ensures
        models(final(out)@) == models(old(out)@) + item_steps(*item, base@),
    decreases item,
{
    let ghost start = models(out@);
    out.push(Step::Open);
    out.push(Step::Run { stage: Stage::Get, command: copy_string(&item.get), dir: Place::workspace() });
    match &item.build {
        Some(b) => {
            out.push(Step::Run {
                stage: Stage::Build,
                command: copy_string(b),
                dir: Place::workspace().under(&item.source),
            });
        },
        None => {},
    }
    let dest = base.under(&item.dest);
    out.push(Step::EnsureDir { dir: base.under(&item.dest) });
    assert(models(out@) =~= start + seq![StepModel::Open] + command_steps(*item) + seq![
        StepModel::EnsureDir { dir: dest_dir(*item, base@) },
    ]);
    let ghost head = models(out@);
    let mut i: usize = 0;
    while i < item.assets.len()
        invariant
            i <= item.assets.len(),
            models(out@) =~= head + asset_steps(*item, base@).subrange(0, i as int),
        decreases item.assets.len() - i,
    {
        push_asset(item, base, &item.assets[i], out);
        i = i + 1;
        assert(models(out@) =~= head + asset_steps(*item, base@).subrange(0, i as int));
    }
    assert(asset_steps(*item, base@).subrange(0, i as int) =~= asset_steps(*item, base@));
    let ghost mid = models(out@);
    let ghost kids = items_steps(item.kids(), dest_dir(*item, base@));
    match &item.children {
        Some(c) => {
            assert(decreases_to!(item => item.children));
            push_items(c, &dest, out);
        },
        None => {
            assert(models(out@) =~= mid + kids);
        },
    }
    assert(models(out@) == mid + kids);
    out.push(Step::Close);
    assert(models(out@) =~= mid + kids + seq![StepModel::Close]);
    assert(models(out@) =~= start + item_steps(*item, base@));
}

/// Appends the steps of a sequence of sibling items with base `base`.
fn push_items(items: &Vec<Item>, base: &Place, out: &mut Vec<Step>)
    ensures
        models(final(out)@) == models(old(out)@) + items_steps(items@, base@),
    decreases items@,
{
    let ghost start = models(out@);
    let mut i: usize = 0;
    assert(items@.subrange(0, 0) =~= Seq::<Item>::empty());
    while i < items.len()
        invariant
            i <= items.len(),
            models(out@) == start + items_steps(items@.subrange(0, i as int), base@),
        decreases items.len() - i,
    {
        assert(decreases_to!(items@ => items@[i as int]));
        push_item(&items[i], base, out);
        let ghost done = items@.subrange(0, i + 1);
        assert(done.drop_last() =~= items@.subrange(0, i as int));
        i = i + 1;
        assert(models(out@) =~= start + items_steps(items@.subrange(0, i as int), base@));
    }
    assert(items@.subrange(0, i as int) =~= items@);
}

/// The plan for a whole manifest: every step of processing its items in
/// order, with the manifest's directory as the base.
pub fn plan(manifest: &Manifest) -> (r: Vec<Step>)
    ensures
        models(r@) == items_steps(manifest.items@, root_model()),
{
    let mut out: Vec<Step> = Vec::new();
    assert(models(out@) =~= Seq::<StepModel>::empty());
    push_items(&manifest.items, &Place::root(), &mut out);
    assert(models(out@) =~= items_steps(manifest.items@, root_model()));
    out
}

/// Whether a step changes the destination tree: a directory creation or a
/// copy.
pub open spec fn places_files(s: StepModel) -> bool {
    s is EnsureDir || s is Copy
}

/// An item's fetch runs right after its workspace is opened, and every step
/// that creates a destination directory or copies an asset, for the item
/// or any of its descendants, comes after the fetch. A failed fetch ends the
/// run, so nothing has been placed for the item by then.
pub proof fn fetch_precedes_placement(item: Item, base: PlaceModel)
    ensures
        item_steps(item, base)[0] == StepModel::Open,
        item_steps(item, base)[1] == (StepModel::Run {
            stage: Stage::Get,
            command: item.get@,
            dir: PlaceModel { anchor: Anchor::Workspace, parts: Seq::empty() },
        }),
        forall|j: int|
            0 <= j < item_steps(item, base).len() && #[trigger] places_files(item_steps(item, base)[j])
                ==> j > 1,
{
    let s = item_steps(item, base);
    assert(s[0] == StepModel::Open);
    assert(s[1] == command_steps(item)[0]);
}

/// The children of an item are processed right after its assets, before its
/// workspace closes, with the item's effective destination as their base:
/// a parent with `dest` a and a child with `dest` b place the child's assets
/// under base/a/b.
pub proof fn children_inherit_destination(item: Item, base: PlaceModel)
    ensures
        ({
            let s = item_steps(item, base);
            let k = items_steps(item.kids(), dest_dir(item, base));
            &&& s.len() >= k.len() + 1
            &&& s.subrange(s.len() - 1 - k.len(), s.len() - 1) == k
            &&& s.last() == StepModel::Close
        }),
        forall|c: Item| #[trigger] item.kids().contains(c) ==> dest_dir(c, dest_dir(item, base))
            == under(under(base, opt_view(item.dest)), opt_view(c.dest)),
{
    let s = item_steps(item, base);
    let k = items_steps(item.kids(), dest_dir(item, base));
    let head = seq![StepModel::Open] + command_steps(item) + seq![
        StepModel::EnsureDir { dir: dest_dir(item, base) },
    ] + asset_steps(item, base);
    assert(s =~= head + k + seq![StepModel::Close]);
    assert(s.subrange(s.len() - 1 - k.len(), s.len() - 1) =~= k);
}

/// Where the steps of an item's assets begin among its steps: after the
/// opening, the commands and the directory creation.
pub open spec fn asset_offset(item: Item) -> int {
    if item.build is Some {
        4
    } else {
        3
    }
}

/// Every asset of an item gets one step, in declared order: a copy from
/// the asset's path under the item's source directory to its file name
/// under the item's destination directory, carrying the item's overwrite
/// switch; or, when its path names no file, a step that ends the run.
pub proof fn assets_resolve(item: Item, base: PlaceModel)
    ensures
        forall|i: int|
            0 <= i < item.assets.len() ==> {
                let a = (#[trigger] item.assets@[i])@;
                let st = item_steps(item, base)[asset_offset(item) + i];
                match file_name(a) {
                    Some(name) => st == StepModel::Copy {
                        asset: a,
                        from: under(source_dir(item), Some(a)),
                        into: dest_dir(item, base),
                        target: under(dest_dir(item, base), Some(name)),
                        overwrite: item.overwrite is Some,
                    },
                    None => st == StepModel::BadAsset { asset: a },
                }
            },
{
    let s = item_steps(item, base);
    let b: int = if item.build is Some { 1 } else { 0 };
    assert forall|i: int| 0 <= i < item.assets.len() implies s[asset_offset(item) + i] == asset_step(item, base, item.assets@[i]@) by {
        let k = items_steps(item.kids(), dest_dir(item, base));
        let head = seq![StepModel::Open] + command_steps(item) + seq![
            StepModel::EnsureDir { dir: dest_dir(item, base) },
        ];
        assert(head.len() == 3 + b);
        assert(s =~= head + asset_steps(item, base) + k + seq![StepModel::Close]);
    }
}

/// How a step changes the number of open workspaces.
pub open spec fn delta(s: StepModel) -> int {
    match s {
        StepModel::Open => 1,
        StepModel::Close => -1,
        _ => 0,
    }
}

/// The change in open workspaces over a sequence of steps.
pub open spec fn depth(s: Seq<StepModel>) -> int
    decreases s.len(),
{
    if s.len() == 0 {
        0
    } else {
        depth(s.drop_last()) + delta(s.last())
    }
}

/// Whether a step refers to the innermost workspace.
pub open spec fn uses_workspace(s: StepModel) -> bool {
    match s {
        StepModel::Run { dir, .. } => dir.anchor == Anchor::Workspace,
        StepModel::EnsureDir { dir } => dir.anchor == Anchor::Workspace,
        StepModel::Copy { from, into, target, .. } => from.anchor == Anchor::Workspace
            || into.anchor == Anchor::Workspace || target.anchor == Anchor::Workspace,
        _ => false,
    }
}

/// Whether `s`, started with `d` workspaces open, never closes a workspace
/// that is not open and runs each step that refers to a workspace while one
/// is open.
pub open spec fn runs_from(s: Seq<StepModel>, d: int) -> bool {
    forall|i: int|
        0 <= i < s.len() ==> {
            &&& d + depth(#[trigger] s.subrange(0, i + 1)) >= 0
            &&& (uses_workspace(s[i]) ==> d + depth(s.subrange(0, i)) >= 1)
        }
}

proof fn lemma_depth_concat(a: Seq<StepModel>, b: Seq<StepModel>)
    ensures
        depth(a + b) == depth(a) + depth(b),
    decreases b.len(),
{
    if b.len() == 0 {
        assert(a + b =~= a);
    } else {
        assert((a + b).drop_last() =~= a + b.drop_last());
        lemma_depth_concat(a, b.drop_last());
    }
}

proof fn lemma_runs_concat(a: Seq<StepModel>, b: Seq<StepModel>, d: int)
    requires
        runs_from(a, d),
        runs_from(b, d + depth(a)),
    ensures
        runs_from(a + b, d),
{
    let s = a + b;
    assert forall|i: int| 0 <= i < s.len() implies {
        &&& d + depth(#[trigger] s.subrange(0, i + 1)) >= 0
        &&& (uses_workspace(s[i]) ==> d + depth(s.subrange(0, i)) >= 1)
    } by {
        if i < a.len() {
            assert(s.subrange(0, i + 1) =~= a.subrange(0, i + 1));
            assert(s.subrange(0, i) =~= a.subrange(0, i));
        } else {
            let j = i - a.len();
            assert(s.subrange(0, i + 1) =~= a + b.subrange(0, j + 1));
            assert(s.subrange(0, i) =~= a + b.subrange(0, j));
            lemma_depth_concat(a, b.subrange(0, j + 1));
            lemma_depth_concat(a, b.subrange(0, j));
            assert(s[i] == b[j]);
        }
    }
}

/// A sequence with no opening or closing step keeps the count of open
/// workspaces, and runs from any count of at least one.
proof fn lemma_flat(s: Seq<StepModel>, d: int)
    requires
        d >= 1,
        forall|i: int| 0 <= i < s.len() ==> delta(#[trigger] s[i]) == 0,
    ensures
        depth(s) == 0,
        runs_from(s, d),
    decreases s.len(),
{
    if s.len() > 0 {
        lemma_flat(s.drop_last(), d);
        assert forall|i: int| 0 <= i < s.len() implies {
            &&& d + depth(#[trigger] s.subrange(0, i + 1)) >= 0
            &&& (uses_workspace(s[i]) ==> d + depth(s.subrange(0, i)) >= 1)
        } by {
            if i < s.len() - 1 {
                assert(s.subrange(0, i + 1) =~= s.drop_last().subrange(0, i + 1));
                assert(s.subrange(0, i) =~= s.drop_last().subrange(0, i));
            } else {
                assert(s.subrange(0, i + 1) =~= s);
                assert(s.subrange(0, i) =~= s.drop_last());
            }
        }
    }
}

proof fn lemma_single(st: StepModel, d: int)
    requires
        d + delta(st) >= 0,
        !uses_workspace(st),
    ensures
        depth(seq![st]) == delta(st),
        runs_from(seq![st], d),
{
    let s = seq![st];
    let e = Seq::<StepModel>::empty();
    assert(depth(e) == 0);
    assert(s.drop_last() =~= e);
    assert(s.last() == st);
    assert(depth(s) == delta(st));
    assert(s.subrange(0, 1) =~= s);
    assert(s.subrange(0, 0) =~= e);
}

proof fn lemma_item_nests(item: Item, base: PlaceModel, d: int)
    requires
        d >= 0,
    ensures
        depth(item_steps(item, base)) == 0,
        runs_from(item_steps(item, base), d),
    decreases item,
{
    let kids = match item.children {
        Some(c) => items_steps(c@, dest_dir(item, base)),
        None => Seq::empty(),
    };
    match item.children {
        Some(c) => {
            assert(decreases_to!(item => item.children));
            lemma_items_nest(c@, dest_dir(item, base), d + 1);
        },
        None => {
            assert(depth(kids) == 0);
        },
    }
    let mid = command_steps(item) + seq![StepModel::EnsureDir { dir: dest_dir(item, base) }]
        + asset_steps(item, base);
    assert forall|i: int| 0 <= i < mid.len() implies delta(#[trigger] mid[i]) == 0 by {
        if i >= command_steps(item).len() + 1 {
            let k = i - command_steps(item).len() - 1;
            assert(mid[i] == asset_steps(item, base)[k]);
        }
    }
    lemma_flat(mid, d + 1);
    lemma_single(StepModel::Open, d);
    lemma_single(StepModel::Close, d + 1);
    lemma_runs_concat(seq![StepModel::Open], mid, d);
    lemma_depth_concat(seq![StepModel::Open], mid);
    lemma_runs_concat(seq![StepModel::Open] + mid, kids, d);
    lemma_depth_concat(seq![StepModel::Open] + mid, kids);
    lemma_runs_concat(seq![StepModel::Open] + mid + kids, seq![StepModel::Close], d);
    lemma_depth_concat(seq![StepModel::Open] + mid + kids, seq![StepModel::Close]);
    assert(item_steps(item, base) =~= seq![StepModel::Open] + mid + kids + seq![StepModel::Close]);
}

proof fn lemma_items_nest(items: Seq<Item>, base: PlaceModel, d: int)
    requires
        d >= 0,
    ensures
        depth(items_steps(items, base)) == 0,
        runs_from(items_steps(items, base), d),
    decreases items,
{
    if items.len() > 0 {
        lemma_items_nest(items.drop_last(), base, d);
        lemma_item_nests(items.last(), base, d);
        lemma_runs_concat(items_steps(items.drop_last(), base), item_steps(items.last(), base), d);
        lemma_depth_concat(items_steps(items.drop_last(), base), item_steps(items.last(), base));
    }
}

/// Workspaces nest properly over the whole plan of a manifest: every
/// workspace opened is closed again, none is closed that is not open, and
/// every step that refers to a workspace runs while one is open. Each item
/// opens its own before its fetch and closes it after its children, so a
/// child never works in its parent's workspace.
pub proof fn workspaces_nest(items: Seq<Item>)
    ensures
        depth(items_steps(items, root_model())) == 0,
        runs_from(items_steps(items, root_model()), 0),
{
    lemma_items_nest(items, root_model(), 0);
}

} // verus!
