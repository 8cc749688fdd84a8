use vstd::prelude::*;

use crate::containerfile::Containerfile;
use crate::feature::all_plain;
use crate::feature::lemma_plain_text;
use crate::feature::lines_text;
use crate::feature::plain;
use crate::feature::push_instr;
use crate::feature::stage_name;
use crate::feature::texts;
use crate::feature::Entry;
use crate::instr::FromKind;
use crate::instr::Instr;
use crate::text::opt_view;
use crate::text::views;
use crate::text::DEFAULT_ESCAPE;
use crate::topo::edge_views;
use crate::topo::stable_topo_sort;
use crate::topo::topo_order;

verus! {

/// The stage every feature stage starts from.
pub const BASE_STAGE: &'static str = "devpp-base";

/// What the build starts from: an image, or a stage of the project's own
/// build file; either way with the optional name of the final stage.
#[derive(Debug)]
pub enum IsImage {
    Image { image: String, target: Option<String> },
    Dockerfile { target: Option<String> },
}

/// Why a build fails.
#[derive(Debug)]
pub enum BuildError {
    GraphCycle,
    FeatureNotFound(String),
    NestedMergeNotSupported,
}

/// A build failure, with the identifier it concerns as characters.
pub enum BuildFailure {
    GraphCycle,
    FeatureNotFound(Seq<char>),
    NestedMergeNotSupported,
}

impl View for BuildError {
    type V = BuildFailure;

    open spec fn view(&self) -> BuildFailure {
        match self {
            BuildError::GraphCycle => BuildFailure::GraphCycle,
            BuildError::FeatureNotFound(id) => BuildFailure::FeatureNotFound(id@),
            BuildError::NestedMergeNotSupported => BuildFailure::NestedMergeNotSupported,
        }
    }
}

/// The features' identifiers, in the order given.
pub open spec fn nodes_of(es: Seq<Entry>) -> Seq<Seq<char>> {
    es.map_values(|e: Entry| e.feature.id@)
}

/// An edge from each dependency of `e` to `e`.
pub open spec fn dep_edges(e: Entry) -> Seq<(Seq<char>, Seq<char>)> {
    e.feature.installs_after@.map_values(|d: String| (d@, e.feature.id@))
}

/// The dependency edges of all features, in order.
pub open spec fn edges_of(es: Seq<Entry>) -> Seq<(Seq<char>, Seq<char>)>
    decreases es.len(),
{
    if es.len() == 0 {
        Seq::empty()
    } else {
        edges_of(es.drop_last()) + dep_edges(es.last())
    }
}

/// The position of the first feature with identifier `id`; `es.len()` if
/// there is none.
pub open spec fn find_entry_spec(es: Seq<Entry>, id: Seq<char>) -> int
    decreases es.len(),
{
    if es.len() == 0 || es[0].feature.id@ == id {
        0
    } else {
        1 + find_entry_spec(es.skip(1), id)
    }
}

/// A `FROM` line.
pub open spec fn from_text(image: Seq<char>, alias: Option<Seq<char>>) -> Seq<char> {
    "FROM "@ + image + match alias {
        Some(a) => " AS "@ + a,
        None => Seq::empty(),
    }
}

/// The blocks a feature stage takes from each dependency, after `acc`; a
/// merge dependency gives none.
pub open spec fn deps_acc(es: Seq<Entry>, acc: Seq<Seq<char>>, deps: Seq<String>) -> Result<
    Seq<Seq<char>>,
    BuildFailure,
>
    decreases deps.len(),
{
    if deps.len() == 0 {
        Ok(acc)
    } else {
        let k = find_entry_spec(es, deps[0]@);
        if k >= es.len() {
            Err(BuildFailure::FeatureNotFound(deps[0]@))
        } else if es[k].feature.customizations.merge {
            deps_acc(es, acc, deps.skip(1))
        } else {
            deps_acc(es, acc + es[k].dependency_lines() + seq![Seq::<char>::empty()], deps.skip(1))
        }
    }
}

/// Adds the feature `id` to the base lines (a merge feature) or as a stage
/// of its own to the feature lines.
pub open spec fn stage_step(
    es: Seq<Entry>,
    acc: (Seq<Seq<char>>, Seq<Seq<char>>),
    id: Seq<char>,
) -> Result<(Seq<Seq<char>>, Seq<Seq<char>>), BuildFailure> {
    let k = find_entry_spec(es, id);
    if k >= es.len() {
        Err(BuildFailure::FeatureNotFound(id))
    } else {
        let e = es[k];
        if e.feature.customizations.merge {
            if e.feature.installs_after@.len() > 0 {
                Err(BuildFailure::NestedMergeNotSupported)
            } else {
                Ok((acc.0 + e.feature_lines() + seq![Seq::<char>::empty()], acc.1))
            }
        } else {
            let opened = acc.1 + seq![
                from_text(BASE_STAGE@, Some(stage_name(e.feature.id@))),
                Seq::<char>::empty(),
            ];
            match deps_acc(es, opened, e.feature.installs_after@) {
                Ok(f) => Ok((acc.0, f + e.feature_lines() + seq![Seq::<char>::empty()])),
                Err(x) => Err(x),
            }
        }
    }
}

/// Adds each of `ids` in turn.
pub open spec fn stages(
    es: Seq<Entry>,
    acc: (Seq<Seq<char>>, Seq<Seq<char>>),
    ids: Seq<Seq<char>>,
) -> Result<(Seq<Seq<char>>, Seq<Seq<char>>), BuildFailure>
    decreases ids.len(),
{
    if ids.len() == 0 {
        Ok(acc)
    } else {
        match stage_step(es, acc, ids[0]) {
            Ok(a) => stages(es, a, ids.skip(1)),
            Err(x) => Err(x),
        }
    }
}

/// The final stage's blocks: what it takes from each feature of `ids` but
/// the merge features.
pub open spec fn final_acc(es: Seq<Entry>, acc: Seq<Seq<char>>, ids: Seq<Seq<char>>) -> Seq<
    Seq<char>,
>
    decreases ids.len(),
{
    if ids.len() == 0 {
        acc
    } else {
        let k = find_entry_spec(es, ids[0]);
        if k >= es.len() || es[k].feature.customizations.merge {
            final_acc(es, acc, ids.skip(1))
        } else {
            final_acc(es, acc + es[k].dependency_lines() + seq![Seq::<char>::empty()], ids.skip(1))
        }
    }
}

pub open spec fn help_moby() -> Seq<char> {
    "@help: https://github.com/moby/buildkit/blob/dockerfile/1.20.0-labs/frontend/dockerfile/docs/reference.md"@
}

pub open spec fn help_containers() -> Seq<char> {
    "@help: https://github.com/containers/common/blob/main/docs/Containerfile.5.md"@
}

pub open spec fn from_build_file() -> Seq<char> {
    "@base: the base stage comes from the project's build file"@
}

/// The lines before the features: two reference comments, then the base
/// stage.
pub open spec fn header_lines(base: IsImage) -> Seq<Seq<char>> {
    seq!["# "@ + help_moby(), "# "@ + help_containers(), Seq::<char>::empty()] + match base {
        IsImage::Image { image, .. } => seq![from_text(image@, Some(BASE_STAGE@))],
        IsImage::Dockerfile { .. } => seq!["# "@ + from_build_file()],
    } + seq![Seq::<char>::empty()]
}

/// The name of the final stage.
pub open spec fn target_of(base: IsImage) -> Option<Seq<char>> {
    match base {
        IsImage::Image { target, .. } => opt_view(target),
        IsImage::Dockerfile { target } => opt_view(target),
    }
}

/// The lines of the build file: the base stage with the merge features, one
/// stage per other feature in dependency order, then the final stage that
/// takes every feature's artifacts in that order.
pub open spec fn compose_spec(es: Seq<Entry>, base: IsImage) -> Result<Seq<Seq<char>>, BuildFailure> {
    match topo_order(nodes_of(es), edges_of(es)) {
        None => Err(BuildFailure::GraphCycle),
        Some(ids) => match stages(es, (header_lines(base), Seq::empty()), ids) {
            Err(x) => Err(x),
            Ok(acc) => {
                let last = final_acc(
                    es,
                    acc.1 + seq![from_text(BASE_STAGE@, target_of(base)), Seq::<char>::empty()],
                    ids,
                );
                Ok(acc.0 + last.drop_last())
            },
        },
    }
}

/// Idempotence: the lines depend on the features and the base alone, so two
/// builds of the same input give the same text.
pub proof fn lemma_compose_deterministic(es1: Seq<Entry>, base1: IsImage, es2: Seq<Entry>, base2: IsImage)
    requires
        es1 == es2,
        base1 == base2,
    ensures
        compose_spec(es1, base1) == compose_spec(es2, base2),
{
}

fn push_from(sink: &mut Vec<Instr>, alias: Option<String>)
    requires
        all_plain(old(sink)@),
    ensures
        all_plain(final(sink)@),
        texts(final(sink)@) == texts(old(sink)@).push(from_text(BASE_STAGE@, opt_view(alias))),
{
    let instr = Instr::From {
        kind: FromKind::Stage(String::from_str(BASE_STAGE)),
        name: alias,
        platform: None,
    };
    proof {
        reveal_strlit("FROM");
        reveal_strlit(" ");
        reveal_strlit("FROM ");
    }
    assert(instr.spec_text(DEFAULT_ESCAPE) =~= from_text(BASE_STAGE@, opt_view(alias)));
    push_instr(sink, instr);
}

fn push_empty(sink: &mut Vec<Instr>)
    requires
        all_plain(old(sink)@),
    ensures
        all_plain(final(sink)@),
        texts(final(sink)@) == texts(old(sink)@).push(Seq::<char>::empty()),
{
    push_instr(sink, Instr::Empty);
}

/// The position of the first feature with identifier `id`.
fn find_entry(entries: &[Entry], id: &String) -> (r: usize)
    ensures
        r == find_entry_spec(entries@, id@),
        r <= entries@.len(),
{
    let mut i: usize = 0;
    assert(entries@.skip(0) =~= entries@);
    while i < entries.len()
        invariant
            i <= entries@.len(),
            find_entry_spec(entries@, id@) == i + find_entry_spec(entries@.skip(i as int), id@),
        decreases entries@.len() - i,
    {
        if entries[i].feature.id == *id {
            assert(entries@.skip(i as int)[0] == entries@[i as int]);
            return i;
        }
        assert(entries@.skip(i as int).skip(1) =~= entries@.skip(i as int + 1));
        i = i + 1;
    }
    i
}

fn apply_deps(entries: &[Entry], deps: &Vec<String>, sink: &mut Vec<Instr>) -> (r: Result<
    (),
    BuildError,
>)
    requires
        all_plain(old(sink)@),
    ensures
        all_plain(final(sink)@),
        match deps_acc(entries@, texts(old(sink)@), deps@) {
            Ok(acc) => r is Ok && texts(final(sink)@) == acc,
            Err(x) => r is Err && r->Err_0@ == x,
        },
{
    let ghost start = texts(sink@);
    let mut j: usize = 0;
    assert(deps@.skip(0) =~= deps@);
    while j < deps.len()
        invariant
            start == texts(old(sink)@),
            all_plain(sink@),
            j <= deps@.len(),
            deps_acc(entries@, start, deps@) == deps_acc(
                entries@,
                texts(sink@),
                deps@.skip(j as int),
            ),
        decreases deps@.len() - j,
    {
        assert(deps@.skip(j as int)[0] == deps@[j as int]);
        assert(deps@.skip(j as int).skip(1) =~= deps@.skip(j as int + 1));
        let k = find_entry(entries, &deps[j]);
        if k == entries.len() {
            return Err(BuildError::FeatureNotFound(deps[j].clone()));
        }
        let dep = &entries[k];
        assert(entries@[k as int] == *dep);
        let ghost cur = texts(sink@);
        if !dep.is_merge() {
            dep.push_dependency(sink);
            push_empty(sink);
            assert(texts(sink@) =~= cur + dep.dependency_lines() + seq![Seq::<char>::empty()]);
        }
        j = j + 1;
    }
    assert(deps@.skip(j as int) =~= Seq::<String>::empty());
    Ok(())
}

fn apply_entry(
    entries: &[Entry],
    id: &String,
    base_sink: &mut Vec<Instr>,
    feat_sink: &mut Vec<Instr>,
) -> (r: Result<(), BuildError>)
    requires
        all_plain(old(base_sink)@),
        all_plain(old(feat_sink)@),
    ensures
        all_plain(final(base_sink)@),
        all_plain(final(feat_sink)@),
        final(base_sink)@.len() >= old(base_sink)@.len(),
        match stage_step(entries@, (texts(old(base_sink)@), texts(old(feat_sink)@)), id@) {
            Ok(acc) => r is Ok && texts(final(base_sink)@) == acc.0 && texts(final(feat_sink)@)
                == acc.1,
            Err(x) => r is Err && r->Err_0@ == x,
        },
{
    let k = find_entry(entries, id);
    if k == entries.len() {
        return Err(BuildError::FeatureNotFound(id.clone()));
    }
    let entry = &entries[k];
    assert(entries@[k as int] == *entry);
    if entry.is_merge() {
        if entry.feature.installs_after.len() > 0 {
            return Err(BuildError::NestedMergeNotSupported);
        }
        let ghost cur = texts(base_sink@);
        entry.push_feature(base_sink);
        push_empty(base_sink);
        assert(texts(base_sink@) =~= cur + entry.feature_lines() + seq![Seq::<char>::empty()]);
        Ok(())
    } else {
        let ghost cur = texts(feat_sink@);
        push_from(feat_sink, Some(entry.get_feature_id()));
        push_empty(feat_sink);
        assert(texts(feat_sink@) =~= cur + seq![
            from_text(BASE_STAGE@, Some(stage_name(entry.feature.id@))),
            Seq::<char>::empty(),
        ]);
        match apply_deps(entries, &entry.feature.installs_after, feat_sink) {
            Ok(()) => {},
            Err(e) => {
                return Err(e);
            },
        }
        let ghost f = texts(feat_sink@);
        entry.push_feature(feat_sink);
        push_empty(feat_sink);
        assert(texts(feat_sink@) =~= f + entry.feature_lines() + seq![Seq::<char>::empty()]);
        Ok(())
    }
}

/// Builds the instructions of the build file for `entries` on `base`: the
/// features are ordered by their dependencies first.
pub fn compose(entries: &[Entry], base: &IsImage) -> (r: Result<Containerfile, BuildError>)
    ensures
        match compose_spec(entries@, *base) {
            Ok(lines) => r is Ok && texts(r->Ok_0@) == lines && all_plain(r->Ok_0@),
            Err(x) => r is Err && r->Err_0@ == x,
        },
        r is Ok ==> r->Ok_0@.len() > 0,
{
    let ghost es = entries@;
    // the dependency graph
    let mut nodes: Vec<String> = Vec::new();
    let mut edges: Vec<(String, String)> = Vec::new();
    let mut i: usize = 0;
    while i < entries.len()
        invariant
            es == entries@,
            i <= es.len(),
            views(nodes@) == nodes_of(es.take(i as int)),
            edge_views(edges@) == edges_of(es.take(i as int)),
        decreases es.len() - i,
    {
        let f = &entries[i].feature;
        let ghost prev_nodes = nodes@;
        let c = f.id.clone();
        nodes.push(c);
        proof {
            crate::text::lemma_views_push(prev_nodes, c);
            assert(nodes_of(es.take(i as int + 1)) =~= nodes_of(es.take(i as int)).push(f.id@));
        }
        let ghost before = edge_views(edges@);
        let mut j: usize = 0;
        while j < f.installs_after.len()
            invariant
                f == &entries@[i as int].feature,
                j <= f.installs_after@.len(),
                edge_views(edges@) == before + dep_edges(entries@[i as int]).take(j as int),
            decreases f.installs_after@.len() - j,
        {
            let ghost prev = edges@;
            edges.push((f.installs_after[j].clone(), f.id.clone()));
            assert(edge_views(edges@) =~= edge_views(prev).push(
                (f.installs_after@[j as int]@, f.id@),
            ));
            assert(dep_edges(entries@[i as int]).take(j as int + 1) =~= dep_edges(
                entries@[i as int],
            ).take(j as int).push((f.installs_after@[j as int]@, f.id@)));
            j = j + 1;
        }
        assert(dep_edges(entries@[i as int]).take(f.installs_after@.len() as int) =~= dep_edges(
            entries@[i as int],
        ));
        assert(es.take(i as int + 1).drop_last() =~= es.take(i as int));
        i = i + 1;
    }
    assert(es.take(es.len() as int) =~= es);
    let ids = match stable_topo_sort(nodes.as_slice(), edges.as_slice()) {
        Ok(ids) => ids,
        Err(_) => {
            return Err(BuildError::GraphCycle);
        },
    };
    let ghost idv = views(ids@);
    assert(topo_order(nodes_of(es), edges_of(es)) == Some(idv));
    // the base stage
    let mut base_sink: Vec<Instr> = Vec::new();
    push_instr(
        &mut base_sink,
        Instr::Comment(
            String::from_str(
                "@help: https://github.com/moby/buildkit/blob/dockerfile/1.20.0-labs/frontend/dockerfile/docs/reference.md",
            ),
        ),
    );
    push_instr(
        &mut base_sink,
        Instr::Comment(
            String::from_str(
                "@help: https://github.com/containers/common/blob/main/docs/Containerfile.5.md",
            ),
        ),
    );
    push_empty(&mut base_sink);
    let target = match base {
        IsImage::Image { image, target } => {
            let instr = Instr::From {
                kind: FromKind::Image { digest: None, image: image.clone(), repo: None, tag: None },
                name: Some(String::from_str(BASE_STAGE)),
                platform: None,
            };
            proof {
                reveal_strlit("FROM");
                reveal_strlit(" ");
                reveal_strlit("FROM ");
            }
            assert(instr.spec_text(DEFAULT_ESCAPE) =~= from_text(image@, Some(BASE_STAGE@)));
            push_instr(&mut base_sink, instr);
            match target {
                Some(t) => Some(t.clone()),
                None => None,
            }
        },
        IsImage::Dockerfile { target } => {
            push_instr(
                &mut base_sink,
                Instr::Comment(
                    String::from_str("@base: the base stage comes from the project's build file"),
                ),
            );
            match target {
                Some(t) => Some(t.clone()),
                None => None,
            }
        },
    };
    push_empty(&mut base_sink);
    assert(texts(base_sink@) =~= header_lines(*base));
    let ghost tv = opt_view(target);
    assert(tv == target_of(*base));
    // a stage per feature
    let mut feat_sink: Vec<Instr> = Vec::new();
    let ghost init = (texts(base_sink@), texts(feat_sink@));
    assert(init =~= (header_lines(*base), Seq::<Seq<char>>::empty()));
    let mut k: usize = 0;
    assert(idv.skip(0) =~= idv);
    while k < ids.len()
        invariant
            idv == views(ids@),
            all_plain(base_sink@),
            all_plain(feat_sink@),
            k <= ids@.len(),
            stages(es, init, idv) == stages(
                es,
                (texts(base_sink@), texts(feat_sink@)),
                idv.skip(k as int),
            ),
            es == entries@,
            topo_order(nodes_of(es), edges_of(es)) == Some(idv),
            init == (header_lines(*base), Seq::<Seq<char>>::empty()),
            base_sink@.len() >= 5,
        decreases ids@.len() - k,
    {
        assert(idv.skip(k as int)[0] == ids@[k as int]@);
        assert(idv.skip(k as int).skip(1) =~= idv.skip(k as int + 1));
        match apply_entry(entries, &ids[k], &mut base_sink, &mut feat_sink) {
            Ok(()) => {},
            Err(e) => {
                return Err(e);
            },
        }
        k = k + 1;
    }
    assert(idv.skip(k as int) =~= Seq::<Seq<char>>::empty());
    let ghost acc = (texts(base_sink@), texts(feat_sink@));
    assert(stages(es, init, idv) == Ok::<(Seq<Seq<char>>, Seq<Seq<char>>), BuildFailure>(acc));
    // the final stage
    push_from(&mut feat_sink, target);
    push_empty(&mut feat_sink);
    let ghost opened = texts(feat_sink@);
    assert(opened =~= acc.1 + seq![from_text(BASE_STAGE@, target_of(*base)), Seq::<char>::empty()]);
    let mut k: usize = 0;
    assert(idv.skip(0) =~= idv);
    while k < ids.len()
        invariant
            idv == views(ids@),
            all_plain(feat_sink@),
            k <= ids@.len(),
            final_acc(es, opened, idv) == final_acc(es, texts(feat_sink@), idv.skip(k as int)),
            es == entries@,
            feat_sink@.len() > 0,
        decreases ids@.len() - k,
    {
        assert(idv.skip(k as int)[0] == ids@[k as int]@);
        assert(idv.skip(k as int).skip(1) =~= idv.skip(k as int + 1));
        let j = find_entry(entries, &ids[k]);
        let ghost cur = texts(feat_sink@);
        if j < entries.len() && !entries[j].is_merge() {
            entries[j].push_dependency(&mut feat_sink);
            push_empty(&mut feat_sink);
            assert(texts(feat_sink@) =~= cur + es[j as int].dependency_lines() + seq![
                Seq::<char>::empty(),
            ]);
        }
        k = k + 1;
    }
    assert(idv.skip(k as int) =~= Seq::<Seq<char>>::empty());
    let ghost full = feat_sink@;
    assert(full.len() > 0);
    feat_sink.pop();
    assert(texts(feat_sink@) =~= texts(full).drop_last());
    assert(all_plain(feat_sink@));
    let ghost b = base_sink@;
    let ghost f = feat_sink@;
    let mut cf = Containerfile::default();
    cf.append(&mut base_sink);
    cf.append(&mut feat_sink);
    assert(cf@ =~= b + f);
    assert(texts(full).drop_last() =~= final_acc(es, opened, idv).drop_last());
    assert(texts(cf@) =~= texts(b) + texts(f));
    assert(all_plain(cf@)) by {
        assert forall|x: int| 0 <= x < cf@.len() implies plain(#[trigger] cf@[x]) by {
            if x < b.len() {
                assert(cf@[x] == b[x]);
            } else {
                assert(cf@[x] == f[x - b.len()]);
            }
        }
    }
    Ok(cf)
}

/// The text of the build file for `entries` on `base`.
pub fn build(entries: &[Entry], base: &IsImage) -> (r: Result<String, BuildError>)
    ensures
        match compose_spec(entries@, *base) {
            Ok(lines) => r is Ok && r->Ok_0@ == lines_text(lines),
            Err(x) => r is Err && r->Err_0@ == x,
        },
{
    match compose(entries, base) {
        Ok(cf) => {
            proof {
                lemma_plain_text(cf@);
            }
            Ok(cf.render())
        },
        Err(e) => Err(e),
    }
}

} // verus!
