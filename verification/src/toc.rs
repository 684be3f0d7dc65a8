//! The navigation tree: link-only projections of sections, and the two
//! dialect encoders (the index-document style and the ordered-list style)
//! that render the same forest into markup.

use crate::epub::EpubVersion;
use crate::strutil::dec_spec;
use crate::strutil::u64_to_dec;
use crate::xmlesc::{append_attr, append_escaped, attr_spec, escape_spec};
use crate::Error;
use vstd::prelude::*;

verus! {

broadcast use {
    vstd::std_specs::vec::axiom_vec_index_decreases,
    vstd::std_specs::vec::axiom_vec_decreases_to_view,
    vstd::seq::axiom_seq_index_decreases,
    vstd::seq::axiom_seq_subrange_decreases,
};

/// A navigation node: an ordering level, a link, a label, and ordered
/// children.
#[derive(Debug)]
pub struct TocElement {
    /// Structural ordering level; every child's level is kept strictly
    /// greater than its parent's.
    pub level: i32,
    /// Link target.
    pub url: String,
    /// Label shown in the table of contents.
    pub title: String,
    /// Ordered children.
    pub childs: Vec<TocElement>,
}

/// Ghost model of a navigation node.
pub ghost struct TocElemModel {
    pub level: int,
    pub url: Seq<char>,
    pub title: Seq<char>,
    pub childs: Seq<TocElemModel>,
}

/// Models of a sequence of navigation nodes, in order.
pub open spec fn toc_models(cs: Seq<TocElement>) -> Seq<TocElemModel>
    decreases cs,
{
    if cs.len() == 0 {
        Seq::empty()
    } else {
        toc_models(cs.drop_last()).push(cs.last().model())
    }
}

impl TocElement {
    /// The ghost model of this node.
    pub open spec fn model(self) -> TocElemModel
        decreases self,
    {
        TocElemModel {
            level: self.level as int,
            url: self.url@,
            title: self.title@,
            childs: toc_models(self.childs@),
        }
    }
}

pub proof fn lemma_toc_models_push(cs: Seq<TocElement>, x: TocElement)
    ensures
        toc_models(cs.push(x)) == toc_models(cs).push(x.model()),
{
    assert(cs.push(x).drop_last() =~= cs);
    assert(cs.push(x).last() == x);
}

pub proof fn lemma_toc_models_index(cs: Seq<TocElement>)
    ensures
        toc_models(cs).len() == cs.len(),
        forall|i: int| 0 <= i < cs.len() ==> toc_models(cs)[i] == cs[i].model(),
    decreases cs,
{
    if cs.len() > 0 {
        lemma_toc_models_index(cs.drop_last());
    }
}

/// Renumbering of a subtree: the node is set to `level`, and every child
/// whose level is not already greater is renumbered one deeper, and so on
/// down.
pub open spec fn renumber_model(m: TocElemModel, level: int) -> TocElemModel
    decreases m,
{
    TocElemModel { level, url: m.url, title: m.title, childs: renumber_childs(m.childs, level) }
}

/// The children of a node renumbered to `level`: children with a level not
/// greater than `level` are renumbered to `level + 1`; the rest are kept.
pub open spec fn renumber_childs(cs: Seq<TocElemModel>, level: int) -> Seq<TocElemModel>
    decreases cs,
{
    if cs.len() == 0 {
        Seq::empty()
    } else {
        renumber_childs(cs.drop_last(), level).push(
            if cs.last().level <= level {
                renumber_model(cs.last(), level + 1)
            } else {
                cs.last()
            },
        )
    }
}

pub proof fn lemma_renumber_childs_index(cs: Seq<TocElemModel>, level: int)
    ensures
        renumber_childs(cs, level).len() == cs.len(),
        forall|i: int| 0 <= i < cs.len() ==> renumber_childs(cs, level)[i] == (if cs[i].level
            <= level {
            renumber_model(cs[i], level + 1)
        } else {
            cs[i]
        }),
    decreases cs,
{
    if cs.len() > 0 {
        lemma_renumber_childs_index(cs.drop_last(), level);
    }
}

/// Nesting depth of a node (a leaf has depth 1).
pub open spec fn depth_model(m: TocElemModel) -> nat
    decreases m,
{
    1 + depth_list(m.childs)
}

/// Greatest nesting depth among the nodes of a forest (0 when empty).
pub open spec fn depth_list(cs: Seq<TocElemModel>) -> nat
    decreases cs,
{
    if cs.len() == 0 {
        0nat
    } else {
        let rest = depth_list(cs.drop_last());
        let last = depth_model(cs.last());
        if rest >= last {
            rest
        } else {
            last
        }
    }
}

/// Number of nodes in a subtree.
pub open spec fn count_model(m: TocElemModel) -> nat
    decreases m,
{
    1 + count_list(m.childs)
}

/// Number of nodes in a forest.
pub open spec fn count_list(cs: Seq<TocElemModel>) -> nat
    decreases cs,
{
    if cs.len() == 0 {
        0nat
    } else {
        count_list(cs.drop_last()) + count_model(cs.last())
    }
}

pub proof fn lemma_count_concat(a: Seq<TocElemModel>, b: Seq<TocElemModel>)
    ensures
        count_list(a + b) == count_list(a) + count_list(b),
    decreases b,
{
    if b.len() == 0 {
        assert(a + b =~= a);
    } else {
        assert((a + b).drop_last() =~= a + b.drop_last());
        assert((a + b).last() == b.last());
        lemma_count_concat(a, b.drop_last());
    }
}

pub proof fn lemma_count_single(m: TocElemModel)
    ensures
        count_list(seq![m]) == count_model(m),
{
    let s = seq![m];
    assert(s.len() == 1);
    assert(s.last() == m);
    assert(s.drop_last() =~= Seq::<TocElemModel>::empty());
    assert(count_list(s.drop_last()) == 0);
    assert(count_list(s) == count_list(s.drop_last()) + count_model(s.last()));
}

/// A prefix of a forest, the element after it, and the rest, together hold
/// all of its nodes.
pub proof fn lemma_count_split(cs: Seq<TocElemModel>, i: int)
    requires
        0 <= i < cs.len(),
    ensures
        count_list(cs) == count_list(cs.subrange(0, i)) + count_model(cs[i]) + count_list(
            cs.subrange(i + 1, cs.len() as int),
        ),
{
    assert(cs =~= cs.subrange(0, i) + seq![cs[i]] + cs.subrange(i + 1, cs.len() as int));
    lemma_count_concat(cs.subrange(0, i) + seq![cs[i]], cs.subrange(i + 1, cs.len() as int));
    lemma_count_concat(cs.subrange(0, i), seq![cs[i]]);
    lemma_count_single(cs[i]);
}

/// Depth never exceeds node count.
pub proof fn lemma_depth_le_count(m: TocElemModel)
    ensures
        depth_model(m) <= count_model(m),
    decreases m,
{
    lemma_depth_le_count_list(m.childs);
}

pub proof fn lemma_depth_le_count_list(cs: Seq<TocElemModel>)
    ensures
        depth_list(cs) <= count_list(cs),
    decreases cs,
{
    if cs.len() > 0 {
        lemma_depth_le_count_list(cs.drop_last());
        lemma_depth_le_count(cs.last());
    }
}

/// Deep copy of a navigation subtree.
fn clone_elem(e: &TocElement) -> (r: TocElement)
    ensures
        r.model() == e.model(),
    decreases *e,
{
    let mut out: Vec<TocElement> = Vec::new();
    let ghost cs0 = e.childs@;
    let mut i: usize = 0;
    proof {
        lemma_toc_models_index(cs0);
        assert(toc_models(cs0).subrange(0, 0) =~= Seq::<TocElemModel>::empty());
    }
    while i < e.childs.len()
        invariant
            i <= cs0.len(),
            e.childs@ == cs0,
            toc_models(out@) == toc_models(cs0).subrange(0, i as int),
            forall|j: int| 0 <= j < cs0.len() ==> toc_models(cs0)[j] == cs0[j].model(),
            toc_models(cs0).len() == cs0.len(),
        decreases cs0.len() - i,
    {
        let c = clone_elem(&e.childs[i]);
        proof {
            lemma_toc_models_push(out@, c);
            assert(toc_models(cs0).subrange(0, i + 1 as int).drop_last() =~= toc_models(
                cs0,
            ).subrange(0, i as int));
        }
        out.push(c);
        i = i + 1;
    }
    proof {
        assert(toc_models(cs0).subrange(0, cs0.len() as int) =~= toc_models(cs0));
    }
    TocElement { level: e.level, url: e.url.clone(), title: e.title.clone(), childs: out }
}

/// Nesting depth of a subtree.
fn elem_depth(e: &TocElement) -> (r: u64)
    requires
        depth_model(e.model()) <= u64::MAX,
    ensures
        r as nat == depth_model(e.model()),
    decreases *e,
{
    let ghost cs0 = e.childs@;
    let mut best: u64 = 0;
    let mut i: usize = 0;
    proof {
        lemma_toc_models_index(cs0);
        assert(toc_models(cs0).subrange(0, 0) =~= Seq::<TocElemModel>::empty());
    }
    while i < e.childs.len()
        invariant
            i <= cs0.len(),
            e.childs@ == cs0,
            depth_model(e.model()) <= u64::MAX,
            e.model().childs == toc_models(cs0),
            best as nat == depth_list(toc_models(cs0).subrange(0, i as int)),
            forall|j: int| 0 <= j < cs0.len() ==> toc_models(cs0)[j] == cs0[j].model(),
            toc_models(cs0).len() == cs0.len(),
        decreases cs0.len() - i,
    {
        let ghost pre = toc_models(cs0).subrange(0, i as int);
        let ghost cur = toc_models(cs0).subrange(0, i + 1 as int);
        proof {
            assert(cur.drop_last() =~= pre);
            assert(cur.last() == cs0[i as int].model());
            lemma_depth_list_member(toc_models(cs0), i as int);
        }
        let d = elem_depth(&e.childs[i]);
        if d > best {
            best = d;
        }
        i = i + 1;
    }
    proof {
        assert(toc_models(cs0).subrange(0, cs0.len() as int) =~= toc_models(cs0));
    }
    best + 1
}

/// Greatest nesting depth among the nodes of a forest.
pub(crate) fn forest_depth_u64(es: &Vec<TocElement>) -> (r: u64)
    requires
        depth_list(toc_models(es@)) <= u64::MAX,
    ensures
        r as nat == depth_list(toc_models(es@)),
{
    let ghost cs0 = es@;
    let mut best: u64 = 0;
    let mut i: usize = 0;
    proof {
        lemma_toc_models_index(cs0);
        assert(toc_models(cs0).subrange(0, 0) =~= Seq::<TocElemModel>::empty());
    }
    while i < es.len()
        invariant
            i <= cs0.len(),
            es@ == cs0,
            depth_list(toc_models(cs0)) <= u64::MAX,
            best as nat == depth_list(toc_models(cs0).subrange(0, i as int)),
            forall|j: int| 0 <= j < cs0.len() ==> toc_models(cs0)[j] == cs0[j].model(),
            toc_models(cs0).len() == cs0.len(),
        decreases cs0.len() - i,
    {
        let ghost pre = toc_models(cs0).subrange(0, i as int);
        let ghost cur = toc_models(cs0).subrange(0, i + 1 as int);
        proof {
            assert(cur.drop_last() =~= pre);
            assert(cur.last() == cs0[i as int].model());
            lemma_depth_list_member(toc_models(cs0), i as int);
            lemma_depth_le_count(cs0[i as int].model());
        }
        let d = elem_depth(&es[i]);
        if d > best {
            best = d;
        }
        i = i + 1;
    }
    proof {
        assert(toc_models(cs0).subrange(0, cs0.len() as int) =~= toc_models(cs0));
    }
    best
}

/// Rebuild a subtree with its levels renumbered from `level`.
fn renumber(e: &TocElement, level: i32) -> (r: TocElement)
    requires
        level + depth_model(e.model()) <= i32::MAX,
    ensures
        r.model() == renumber_model(e.model(), level as int),
    decreases *e,
{
    let ghost m0 = e.model();
    let ghost cs0 = e.childs@;
    let mut out: Vec<TocElement> = Vec::new();
    let mut i: usize = 0;
    proof {
        lemma_toc_models_index(cs0);
        assert(renumber_childs(toc_models(cs0).subrange(0, 0), level as int) =~= Seq::<
            TocElemModel,
        >::empty());
        assert(toc_models(cs0).subrange(0, 0) =~= Seq::<TocElemModel>::empty());
    }
    while i < e.childs.len()
        invariant
            i <= cs0.len(),
            e.childs@ == cs0,
            m0 == e.model(),
            m0.childs == toc_models(cs0),
            level + depth_model(m0) <= i32::MAX,
            toc_models(out@) == renumber_childs(toc_models(cs0).subrange(0, i as int),
                level as int),
            forall|j: int| 0 <= j < cs0.len() ==> toc_models(cs0)[j] == cs0[j].model(),
            toc_models(cs0).len() == cs0.len(),
        decreases cs0.len() - i,
    {
        let ghost cm = cs0[i as int].model();
        let ghost pre = toc_models(cs0).subrange(0, i as int);
        let ghost cur = toc_models(cs0).subrange(0, i + 1 as int);
        proof {
            assert(cur.drop_last() =~= pre);
            assert(cur.last() == cm);
            lemma_depth_list_member(m0.childs, i as int);
        }
        let c = &e.childs[i];
        let c2 = if c.level <= level {
            renumber(c, level + 1)
        } else {
            clone_elem(c)
        };
        proof {
            assert(c2.model() == (if cm.level <= level as int {
                renumber_model(cm, level as int + 1)
            } else {
                cm
            }));
            lemma_toc_models_push(out@, c2);
            assert(renumber_childs(cur, level as int) == renumber_childs(pre, level as int).push(
                if cm.level <= level as int {
                    renumber_model(cm, level as int + 1)
                } else {
                    cm
                },
            ));
        }
        out.push(c2);
        i = i + 1;
    }
    proof {
        assert(toc_models(cs0).subrange(0, cs0.len() as int) =~= toc_models(cs0));
    }
    TocElement { level, url: e.url.clone(), title: e.title.clone(), childs: out }
}

pub proof fn lemma_depth_list_member(cs: Seq<TocElemModel>, i: int)
    requires
        0 <= i < cs.len(),
    ensures
        depth_list(cs) >= depth_model(cs[i]),
    decreases cs,
{
    if i == cs.len() - 1 {
    } else {
        lemma_depth_list_member(cs.drop_last(), i);
    }
}

/// The level invariant of a navigation subtree: every child's level is
/// strictly greater than its parent's, all the way down.
pub open spec fn levels_wf(m: TocElemModel) -> bool
    decreases m,
{
    forall|i: int|
        0 <= i < m.childs.len() ==> (#[trigger] m.childs[i]).level > m.level && levels_wf(
            m.childs[i],
        )
}

/// Renumbering yields a well-levelled subtree from a well-levelled one.
pub proof fn lemma_renumber_levels_wf(m: TocElemModel, level: int)
    requires
        levels_wf(m),
    ensures
        levels_wf(renumber_model(m, level)),
        renumber_model(m, level).level == level,
    decreases m,
{
    let r = renumber_model(m, level);
    lemma_renumber_childs_index(m.childs, level);
    assert forall|i: int| 0 <= i < r.childs.len() implies (#[trigger] r.childs[i]).level > level
        && levels_wf(r.childs[i]) by {
        if m.childs[i].level <= level {
            lemma_renumber_levels_wf(m.childs[i], level + 1);
        } else {
            assert(r.childs[i] == m.childs[i]);
        }
    }
}

impl TocElement {
    /// A fresh node at level 1 with no children.
    pub fn new(url: String, title: String) -> (r: TocElement)
        ensures
            r.model() == (TocElemModel {
                level: 1,
                url: url@,
                title: title@,
                childs: Seq::empty(),
            }),
    {
        let r = TocElement { level: 1, url, title, childs: vec![] };
        proof {
            assert(r.childs@ =~= Seq::<TocElement>::empty());
        }
        r
    }

    /// Visit this node and then, in order, every node below it, stopping
    /// the walk at the first node the callback declines.  The result says
    /// whether every visited node was accepted.
    pub fn traverse<F: Fn(&TocElement) -> bool>(&self, callback: &F) -> (r: bool)
        requires
            forall|e: &TocElement| #[trigger] call_requires(*callback, (e,)),
        ensures
            !r ==> exists|e: &TocElement| #[trigger] call_ensures(*callback, (e,), false),
            r ==> call_ensures(*callback, (self,), true),
        decreases *self,
    {
        if !callback(self) {
            return false;
        }
        let mut i: usize = 0;
        while i < self.childs.len()
            invariant
                forall|e: &TocElement| #[trigger] call_requires(*callback, (e,)),
                call_ensures(*callback, (self,), true),
            decreases self.childs@.len() - i,
        {
            let ok = self.childs[i].traverse(callback);
            if !ok {
                return false;
            }
            i = i + 1;
        }
        true
    }

    /// Attach `child` as the last child.  A child whose level is not
    /// strictly greater than this node's has its entire subtree renumbered
    /// first, so the level invariant holds independently of how the child
    /// was produced.
    pub fn add_child(&mut self, child: TocElement)
        requires
            old(self).level < i32::MAX,
            child.model().level <= old(self).model().level ==> old(self).level + 1 + depth_model(
                child.model(),
            ) <= i32::MAX,
        ensures
            final(self).level == old(self).level,
            final(self).url == old(self).url,
            final(self).title == old(self).title,
            final(self).model().childs == old(self).model().childs.push(
                if child.model().level <= old(self).model().level {
                    renumber_model(child.model(), old(self).model().level + 1)
                } else {
                    child.model()
                },
            ),
    {
        let ghost cm = child.model();
        let c2 = if child.level <= self.level {
            renumber(&child, self.level + 1)
        } else {
            child
        };
        proof {
            lemma_toc_models_push(self.childs@, c2);
        }
        self.childs.push(c2);
    }
}

/// A text element.
#[derive(Debug, Clone)]
pub struct Text {
    pub text: String,
}

/// A link target element.
#[derive(Debug, Clone)]
pub struct Content {
    pub src: String,
}

/// A named metadata entry of a navigation document header.
#[derive(Debug, Clone)]
pub struct MetaItem {
    pub name: String,
    pub content: String,
}

/// The header of the index-style navigation document.
#[derive(Debug, Clone)]
pub struct Metadata {
    pub meta: Vec<MetaItem>,
}

/// One node of the index-style navigation map.
#[derive(Debug)]
pub struct NavPoint {
    pub id: String,
    pub nav_label: Option<Text>,
    pub content: Option<Content>,
    pub nav_element: Vec<NavPoint>,
    pub play_order: Option<u64>,
}

/// Ghost model of a navigation-map node.
pub ghost struct NavPointModel {
    pub id: Seq<char>,
    pub label: Option<Seq<char>>,
    pub src: Option<Seq<char>>,
    pub childs: Seq<NavPointModel>,
    pub play_order: Option<nat>,
}

/// Models of a sequence of navigation-map nodes.
pub open spec fn np_models(ps: Seq<NavPoint>) -> Seq<NavPointModel>
    decreases ps,
{
    if ps.len() == 0 {
        Seq::empty()
    } else {
        np_models(ps.drop_last()).push(ps.last().model())
    }
}

impl NavPoint {
    /// The ghost model of this node.
    pub open spec fn model(self) -> NavPointModel
        decreases self,
    {
        NavPointModel {
            id: self.id@,
            label: match self.nav_label {
                Option::Some(t) => Option::Some(t.text@),
                Option::None => Option::None,
            },
            src: match self.content {
                Option::Some(c) => Option::Some(c.src@),
                Option::None => Option::None,
            },
            childs: np_models(self.nav_element@),
            play_order: match self.play_order {
                Option::Some(o) => Option::Some(o as nat),
                Option::None => Option::None,
            },
        }
    }

    /// A fresh node with a label and a link and no children.
    pub fn new(id: String, nav_label: String, content: String) -> (r: NavPoint)
        ensures
            r.model() == (NavPointModel {
                id: id@,
                label: Option::Some(nav_label@),
                src: Option::Some(content@),
                childs: Seq::empty(),
                play_order: Option::None,
            }),
    {
        let r = NavPoint {
            id,
            nav_label: Option::Some(Text { text: nav_label }),
            content: Option::Some(Content { src: content }),
            nav_element: Vec::new(),
            play_order: Option::None,
        };
        proof {
            assert(r.nav_element@ =~= Seq::<NavPoint>::empty());
        }
        r
    }

    /// Append a child node.
    pub fn add_nav_point(&mut self, nav_point: NavPoint)
        ensures
            final(self).model() == (NavPointModel {
                childs: old(self).model().childs.push(nav_point.model()),
                ..old(self).model()
            }),
    {
        proof {
            lemma_np_models_push(self.nav_element@, nav_point);
        }
        self.nav_element.push(nav_point);
    }

    /// Set the link target.
    pub fn content(&mut self, src: String)
        ensures
            final(self).model() == (NavPointModel {
                src: Option::Some(src@),
                ..old(self).model()
            }),
    {
        self.content = Option::Some(Content { src });
    }

    /// Set the label.
    pub fn nav_label(&mut self, label: String)
        ensures
            final(self).model() == (NavPointModel {
                label: Option::Some(label@),
                ..old(self).model()
            }),
    {
        self.nav_label = Option::Some(Text { text: label });
    }

    /// Set the id.
    pub fn id(&mut self, id: String)
        ensures
            final(self).model() == (NavPointModel { id: id@, ..old(self).model() }),
    {
        self.id = id;
    }
}

pub proof fn lemma_np_models_push(ps: Seq<NavPoint>, x: NavPoint)
    ensures
        np_models(ps.push(x)) == np_models(ps).push(x.model()),
{
    assert(ps.push(x).drop_last() =~= ps);
    assert(ps.push(x).last() == x);
}

/// The navigation map of the index-style document.
#[derive(Debug)]
pub struct NavMap {
    pub nav_point: Vec<NavPoint>,
}

/// The index-style navigation document.
#[derive(Debug)]
pub struct TocNCX {
    pub head: Metadata,
    pub doc_title: Text,
    pub nav_map: NavMap,
    pub xmlns: String,
    pub version: String,
    pub lang: String,
}

impl TocNCX {
    /// A fresh index-style document with the fixed namespace and version.
    pub fn new(title: String, lang: String) -> (r: TocNCX)
        ensures
            r.head.meta@ == Seq::<MetaItem>::empty(),
            r.doc_title.text@ == title@,
            r.nav_map.nav_point@ == Seq::<NavPoint>::empty(),
            r.xmlns@ == "http://www.daisy.org/z3986/2005/ncx/"@,
            r.version@ == "2005-1"@,
            r.lang@ == lang@,
    {
        TocNCX {
            head: Metadata { meta: Vec::new() },
            doc_title: Text { text: title },
            nav_map: NavMap { nav_point: Vec::new() },
            xmlns: String::from_str("http://www.daisy.org/z3986/2005/ncx/"),
            version: String::from_str("2005-1"),
            lang,
        }
    }
}

/// The projection of a navigation node into a numbered navigation-map
/// node: the traversal order `n` is assigned to the node itself and the
/// children continue the count in depth-first pre-order.
pub open spec fn np_from(m: TocElemModel, n: nat) -> NavPointModel
    decreases m,
{
    NavPointModel {
        id: "navPoint-"@ + dec_spec(n),
        label: Option::Some(m.title),
        src: Option::Some(m.url),
        childs: nps_from(m.childs, (n + 1) as nat),
        play_order: Option::Some(n),
    }
}

/// The projection of a forest into numbered navigation-map nodes starting
/// at `n`.
pub open spec fn nps_from(cs: Seq<TocElemModel>, n: nat) -> Seq<NavPointModel>
    decreases cs,
{
    if cs.len() == 0 {
        Seq::empty()
    } else {
        nps_from(cs.drop_last(), n).push(
            np_from(cs.last(), (n + count_list(cs.drop_last())) as nat),
        )
    }
}

/// Number of nodes in a subtree, or `None` when it does not fit in `u64`.
fn count_elem_checked(e: &TocElement) -> (r: Option<u64>)
    ensures
        match r {
            Option::Some(n) => n as nat == count_model(e.model()),
            Option::None => count_model(e.model()) > u64::MAX,
        },
    decreases *e,
{
    let ghost cs0 = e.childs@;
    let mut total: u64 = 1;
    let mut i: usize = 0;
    proof {
        lemma_toc_models_index(cs0);
        assert(toc_models(cs0).subrange(0, 0) =~= Seq::<TocElemModel>::empty());
    }
    while i < e.childs.len()
        invariant
            i <= cs0.len(),
            e.childs@ == cs0,
            total as nat == 1 + count_list(toc_models(cs0).subrange(0, i as int)),
            forall|j: int| 0 <= j < cs0.len() ==> toc_models(cs0)[j] == cs0[j].model(),
            toc_models(cs0).len() == cs0.len(),
        decreases cs0.len() - i,
    {
        let ghost pre = toc_models(cs0).subrange(0, i as int);
        let ghost cur = toc_models(cs0).subrange(0, i + 1 as int);
        proof {
            assert(cur.drop_last() =~= pre);
            assert(cur.last() == cs0[i as int].model());
        }
        let c = count_elem_checked(&e.childs[i]);
        match c {
            Option::Some(n) => {
                if total <= u64::MAX - n {
                    total = total + n;
                } else {
                    proof {
                        lemma_count_prefix_le(toc_models(cs0), i + 1 as int);
                    }
                    return Option::None;
                }
            },
            Option::None => {
                proof {
                    lemma_count_prefix_le(toc_models(cs0), i + 1 as int);
                }
                return Option::None;
            },
        }
        i = i + 1;
    }
    proof {
        assert(toc_models(cs0).subrange(0, cs0.len() as int) =~= toc_models(cs0));
    }
    Option::Some(total)
}

/// A prefix counts no more nodes than the whole forest.
pub proof fn lemma_count_prefix_le(cs: Seq<TocElemModel>, i: int)
    requires
        0 <= i <= cs.len(),
    ensures
        count_list(cs.subrange(0, i)) <= count_list(cs),
    decreases cs.len() - i,
{
    if i == cs.len() {
        assert(cs.subrange(0, i) =~= cs);
    } else {
        lemma_count_split(cs, i);
        lemma_count_prefix_le(cs, i + 1);
        assert(cs.subrange(0, i + 1).drop_last() =~= cs.subrange(0, i));
        assert(cs.subrange(0, i + 1).last() == cs[i]);
    }
}

/// Number of nodes in a forest, or `None` when it does not fit in `u64`.
pub(crate) fn count_forest_checked(es: &Vec<TocElement>) -> (r: Option<u64>)
    ensures
        match r {
            Option::Some(n) => n as nat == count_list(toc_models(es@)),
            Option::None => count_list(toc_models(es@)) > u64::MAX,
        },
{
    let ghost cs0 = es@;
    let mut total: u64 = 0;
    let mut i: usize = 0;
    proof {
        lemma_toc_models_index(cs0);
        assert(toc_models(cs0).subrange(0, 0) =~= Seq::<TocElemModel>::empty());
    }
    while i < es.len()
        invariant
            i <= cs0.len(),
            es@ == cs0,
            total as nat == count_list(toc_models(cs0).subrange(0, i as int)),
            forall|j: int| 0 <= j < cs0.len() ==> toc_models(cs0)[j] == cs0[j].model(),
            toc_models(cs0).len() == cs0.len(),
        decreases cs0.len() - i,
    {
        let ghost pre = toc_models(cs0).subrange(0, i as int);
        let ghost cur = toc_models(cs0).subrange(0, i + 1 as int);
        proof {
            assert(cur.drop_last() =~= pre);
            assert(cur.last() == cs0[i as int].model());
        }
        let c = count_elem_checked(&es[i]);
        match c {
            Option::Some(n) => {
                if total <= u64::MAX - n {
                    total = total + n;
                } else {
                    proof {
                        lemma_count_prefix_le(toc_models(cs0), i + 1 as int);
                    }
                    return Option::None;
                }
            },
            Option::None => {
                proof {
                    lemma_count_prefix_le(toc_models(cs0), i + 1 as int);
                }
                return Option::None;
            },
        }
        i = i + 1;
    }
    proof {
        assert(toc_models(cs0).subrange(0, cs0.len() as int) =~= toc_models(cs0));
    }
    Option::Some(total)
}

impl NavPoint {
    /// Project a navigation node into a numbered navigation-map node; `n`
    /// is the traversal order of the node itself, and the result also
    /// carries the next free order number.
    fn from_toc_element(e: &TocElement, n: u64) -> (r: (NavPoint, u64))
        requires
            n + count_model(e.model()) <= u64::MAX,
        ensures
            r.0.model() == np_from(e.model(), n as nat),
            r.1 as nat == n + count_model(e.model()),
        decreases *e,
    {
        let mut id = String::from_str("navPoint-");
        let ns = u64_to_dec(n);
        id.append(ns.as_str());
        let (childs, next) = nav_points_from(&e.childs, n + 1);
        let np = NavPoint {
            id,
            nav_label: Option::Some(Text { text: e.title.clone() }),
            content: Option::Some(Content { src: e.url.clone() }),
            nav_element: childs,
            play_order: Option::Some(n),
        };
        (np, next)
    }
}

/// Project a forest into numbered navigation-map nodes starting at
/// `start`; also yields the next free order number.
fn nav_points_from(es: &Vec<TocElement>, start: u64) -> (r: (Vec<NavPoint>, u64))
    requires
        start + count_list(toc_models(es@)) <= u64::MAX,
    ensures
        np_models(r.0@) == nps_from(toc_models(es@), start as nat),
        r.1 as nat == start + count_list(toc_models(es@)),
    decreases es,
{
    let ghost cs0 = es@;
    let ghost ms = toc_models(cs0);
    let mut out: Vec<NavPoint> = Vec::new();
    let mut next: u64 = start;
    let mut i: usize = 0;
    proof {
        lemma_toc_models_index(cs0);
        assert(ms.subrange(0, 0) =~= Seq::<TocElemModel>::empty());
        assert(nps_from(ms.subrange(0, 0), start as nat) =~= Seq::<NavPointModel>::empty());
        assert(np_models(out@) =~= Seq::<NavPointModel>::empty());
    }
    while i < es.len()
        invariant
            i <= cs0.len(),
            es@ == cs0,
            ms == toc_models(cs0),
            start + count_list(ms) <= u64::MAX,
            next as nat == start + count_list(ms.subrange(0, i as int)),
            np_models(out@) == nps_from(ms, start as nat).subrange(0, i as int),
            forall|j: int| 0 <= j < cs0.len() ==> ms[j] == cs0[j].model(),
            ms.len() == cs0.len(),
        decreases cs0.len() - i,
    {
        let ghost pre = ms.subrange(0, i as int);
        let ghost cur = ms.subrange(0, i + 1 as int);
        proof {
            assert(cur.drop_last() =~= pre);
            assert(cur.last() == cs0[i as int].model());
            lemma_count_split(ms, i as int);
            lemma_count_prefix_le(ms, i as int);
            lemma_nps_from_prefix(ms, start as nat, i + 1 as int);
        }
        let (np, next2) = NavPoint::from_toc_element(&es[i], next);
        proof {
            lemma_np_models_push(out@, np);
            lemma_nps_from_prefix(ms, start as nat, i as int);
        }
        out.push(np);
        next = next2;
        i = i + 1;
        proof {
            assert(np_models(out@) =~= nps_from(ms, start as nat).subrange(0, i as int));
        }
    }
    proof {
        assert(ms.subrange(0, cs0.len() as int) =~= ms);
        assert(nps_from(ms, start as nat).subrange(0, i as int) =~= nps_from(ms, start as nat)) by {
            lemma_nps_from_len(ms, start as nat);
        }
    }
    (out, next)
}

/// Length of the numbered projection of a forest.
pub proof fn lemma_nps_from_len(cs: Seq<TocElemModel>, n: nat)
    ensures
        nps_from(cs, n).len() == cs.len(),
    decreases cs,
{
    if cs.len() > 0 {
        lemma_nps_from_len(cs.drop_last(), n);
    }
}

/// A prefix of the numbered projection is the projection of the prefix.
pub proof fn lemma_nps_from_prefix(cs: Seq<TocElemModel>, n: nat, i: int)
    requires
        0 <= i <= cs.len(),
    ensures
        nps_from(cs, n).subrange(0, i) == nps_from(cs.subrange(0, i), n),
        nps_from(cs.subrange(0, i), n).len() == i,
        i < cs.len() ==> nps_from(cs, n).subrange(0, i + 1) == nps_from(cs.subrange(0, i), n).push(
            np_from(cs[i], (n + count_list(cs.subrange(0, i))) as nat),
        ),
    decreases cs.len() - i,
{
    lemma_nps_from_len(cs, n);
    lemma_nps_from_prefix_aux(cs, n, i);
    if i < cs.len() {
        lemma_nps_from_prefix_aux(cs, n, i + 1);
        let p1 = cs.subrange(0, i + 1);
        assert(p1.drop_last() =~= cs.subrange(0, i));
        assert(p1.last() == cs[i]);
        assert(nps_from(p1, n) == nps_from(cs.subrange(0, i), n).push(
            np_from(cs[i], (n + count_list(cs.subrange(0, i))) as nat),
        ));
        assert(nps_from(cs, n).subrange(0, i + 1) =~= nps_from(p1, n));
    }
    assert(nps_from(cs, n).subrange(0, i) =~= nps_from(cs.subrange(0, i), n));
    lemma_nps_from_len(cs.subrange(0, i), n);
}

proof fn lemma_nps_from_prefix_aux(cs: Seq<TocElemModel>, n: nat, i: int)
    requires
        0 <= i <= cs.len(),
    ensures
        forall|j: int| 0 <= j < i ==> nps_from(cs, n)[j] == nps_from(cs.subrange(0, i), n)[j],
        nps_from(cs.subrange(0, i), n).len() == i,
    decreases cs.len() - i,
{
    lemma_nps_from_len(cs.subrange(0, i), n);
    if i < cs.len() {
        lemma_nps_from_prefix_aux(cs, n, i + 1);
        let p1 = cs.subrange(0, i + 1);
        let p0 = cs.subrange(0, i);
        assert(p1.drop_last() =~= p0);
        lemma_nps_from_len(p1, n);
        assert(forall|j: int| 0 <= j < i ==> nps_from(p1, n)[j] == nps_from(p0, n)[j]);
    } else {
        assert(cs.subrange(0, i) =~= cs);
    }
}

/// Views of name/content metadata pairs.
pub open spec fn pair_views(ps: Seq<(String, String)>) -> Seq<(Seq<char>, Seq<char>)> {
    ps.map_values(|p: (String, String)| (p.0@, p.1@))
}

/// Markup of one header metadata entry.
pub open spec fn meta_pair_xml(name: Seq<char>, content: Seq<char>) -> Seq<char> {
    "<meta"@ + attr_spec("name"@, name) + attr_spec("content"@, content) + "/>"@
}

/// Markup of the header metadata entries in order.
pub open spec fn metas_xml(ms: Seq<(Seq<char>, Seq<char>)>) -> Seq<char>
    decreases ms,
{
    if ms.len() == 0 {
        Seq::empty()
    } else {
        metas_xml(ms.drop_last()) + meta_pair_xml(ms.last().0, ms.last().1)
    }
}

/// Markup of an optional navigation label.
pub open spec fn np_label_part(l: Option<Seq<char>>) -> Seq<char> {
    match l {
        Option::None => Seq::empty(),
        Option::Some(t) => "<navLabel><text>"@ + escape_spec(t) + "</text></navLabel>"@,
    }
}

/// Markup of an optional link target.
pub open spec fn np_content_part(src: Option<Seq<char>>) -> Seq<char> {
    match src {
        Option::None => Seq::empty(),
        Option::Some(s) => "<content"@ + attr_spec("src"@, s) + "/>"@,
    }
}

/// Markup of an optional traversal order attribute.
pub open spec fn np_order_part(po: Option<nat>) -> Seq<char> {
    match po {
        Option::None => Seq::empty(),
        Option::Some(o) => attr_spec("playOrder"@, dec_spec(o)),
    }
}

/// Markup of one navigation-map node and its subtree.
pub open spec fn navpoint_xml(m: NavPointModel) -> Seq<char>
    decreases m,
{
    "<navPoint"@ + attr_spec("id"@, m.id) + np_order_part(m.play_order) + ">"@ + np_label_part(
        m.label,
    ) + np_content_part(m.src) + navpoints_xml(m.childs) + "</navPoint>"@
}

/// Markup of a sequence of navigation-map nodes in order.
pub open spec fn navpoints_xml(ms: Seq<NavPointModel>) -> Seq<char>
    decreases ms,
{
    if ms.len() == 0 {
        Seq::empty()
    } else {
        navpoints_xml(ms.drop_last()) + navpoint_xml(ms.last())
    }
}

pub proof fn lemma_np_models_index(ps: Seq<NavPoint>)
    ensures
        np_models(ps).len() == ps.len(),
        forall|i: int| 0 <= i < ps.len() ==> np_models(ps)[i] == ps[i].model(),
    decreases ps,
{
    if ps.len() > 0 {
        lemma_np_models_index(ps.drop_last());
    }
}

/// Render the header metadata entries.
fn encode_metas(ms: &Vec<MetaItem>) -> (r: String)
    ensures
        r@ == metas_xml(
            ms@.map_values(|m: MetaItem| (m.name@, m.content@)),
        ),
{
    let ghost views = ms@.map_values(|m: MetaItem| (m.name@, m.content@));
    let mut out = String::new();
    let mut i: usize = 0;
    proof {
        assert(views.subrange(0, 0) =~= Seq::<(Seq<char>, Seq<char>)>::empty());
    }
    while i < ms.len()
        invariant
            i <= ms@.len(),
            views == ms@.map_values(|m: MetaItem| (m.name@, m.content@)),
            views.len() == ms@.len(),
            out@ == metas_xml(views.subrange(0, i as int)),
        decreases ms@.len() - i,
    {
        let m = &ms[i];
        let mut item = String::from_str("<meta");
        append_attr(&mut item, "name", m.name.as_str());
        append_attr(&mut item, "content", m.content.as_str());
        item.append("/>");
        out.append(item.as_str());
        proof {
            let pre = views.subrange(0, i as int);
            let cur = views.subrange(0, i + 1 as int);
            assert(cur.drop_last() =~= pre);
            assert(cur.last() == views[i as int]);
            assert(views[i as int] == (ms@[i as int].name@, ms@[i as int].content@));
            assert(out@ == metas_xml(pre) + meta_pair_xml(cur.last().0, cur.last().1));
        }
        i = i + 1;
    }
    proof {
        assert(views.subrange(0, views.len() as int) =~= views);
    }
    out
}

/// Render the optional traversal order attribute.
fn encode_order_part(po: &Option<u64>) -> (r: String)
    ensures
        r@ == np_order_part(
            match *po {
                Option::Some(o) => Option::Some(o as nat),
                Option::None => Option::None,
            },
        ),
{
    match po {
        Option::Some(o) => {
            let mut out = String::new();
            let s = u64_to_dec(*o);
            append_attr(&mut out, "playOrder", s.as_str());
            proof {
                assert(out@ =~= attr_spec("playOrder"@, dec_spec(*o as nat)));
            }
            out
        },
        Option::None => {
            let out = String::new();
            out
        },
    }
}

/// Render the optional navigation label.
fn encode_label_part(l: &Option<Text>) -> (r: String)
    ensures
        r@ == np_label_part(
            match *l {
                Option::Some(t) => Option::Some(t.text@),
                Option::None => Option::None,
            },
        ),
{
    match l {
        Option::Some(t) => {
            let mut out = String::from_str("<navLabel><text>");
            append_escaped(&mut out, t.text.as_str());
            out.append("</text></navLabel>");
            out
        },
        Option::None => String::new(),
    }
}

/// Render the optional link target.
fn encode_content_part(c: &Option<Content>) -> (r: String)
    ensures
        r@ == np_content_part(
            match *c {
                Option::Some(cc) => Option::Some(cc.src@),
                Option::None => Option::None,
            },
        ),
{
    match c {
        Option::Some(cc) => {
            let mut out = String::from_str("<content");
            append_attr(&mut out, "src", cc.src.as_str());
            out.append("/>");
            out
        },
        Option::None => String::new(),
    }
}

/// Render one navigation-map node and its subtree.
fn encode_navpoint(p: &NavPoint) -> (r: String)
    ensures
        r@ == navpoint_xml(p.model()),
    decreases *p,
{
    let mut out = String::from_str("<navPoint");
    append_attr(&mut out, "id", p.id.as_str());
    let po = encode_order_part(&p.play_order);
    out.append(po.as_str());
    out.append(">");
    let lp = encode_label_part(&p.nav_label);
    out.append(lp.as_str());
    let cp = encode_content_part(&p.content);
    out.append(cp.as_str());
    let kids = encode_navpoints(&p.nav_element);
    out.append(kids.as_str());
    out.append("</navPoint>");
    out
}

/// Render a sequence of navigation-map nodes in order.
fn encode_navpoints(ps: &Vec<NavPoint>) -> (r: String)
    ensures
        r@ == navpoints_xml(np_models(ps@)),
    decreases ps,
{
    let ghost ms = np_models(ps@);
    let mut out = String::new();
    let mut i: usize = 0;
    proof {
        lemma_np_models_index(ps@);
        assert(ms.subrange(0, 0) =~= Seq::<NavPointModel>::empty());
    }
    while i < ps.len()
        invariant
            i <= ps@.len(),
            ms == np_models(ps@),
            ms.len() == ps@.len(),
            forall|j: int| 0 <= j < ps@.len() ==> ms[j] == ps@[j].model(),
            out@ == navpoints_xml(ms.subrange(0, i as int)),
        decreases ps@.len() - i,
    {
        let s = encode_navpoint(&ps[i]);
        out.append(s.as_str());
        proof {
            let pre = ms.subrange(0, i as int);
            let cur = ms.subrange(0, i + 1 as int);
            assert(cur.drop_last() =~= pre);
            assert(cur.last() == ms[i as int]);
        }
        i = i + 1;
    }
    proof {
        assert(ms.subrange(0, ms.len() as int) =~= ms);
    }
    out
}

/// The complete markup of an index-style navigation document.
pub open spec fn ncx_doc_spec(n: TocNCX) -> Seq<char> {
    "<?xml version=\"1.0\" encoding=\"UTF-8\"?>\n<!DOCTYPE ncx PUBLIC \"-//NISO//DTD ncx 2005-1//EN\" \"http://www.daisy.org/z3986/2005/ncx-2005-1.dtd\">"@
        + "<ncx"@ + attr_spec("xmlns"@, n.xmlns@) + attr_spec("version"@, n.version@) + attr_spec(
        "xml:lang"@,
        n.lang@,
    ) + ">"@ + "<head>"@ + metas_xml(n.head.meta@.map_values(|m: MetaItem| (m.name@, m.content@)))
        + "</head>"@ + "<docTitle><text>"@ + escape_spec(n.doc_title.text@) + "</text></docTitle>"@
        + "<navMap>"@ + navpoints_xml(np_models(n.nav_map.nav_point@)) + "</navMap>"@ + "</ncx>"@
}

/// Render a complete index-style navigation document.
pub fn ncx_encode(n: &TocNCX) -> (r: String)
    ensures
        r@ == ncx_doc_spec(*n),
{
    let mut out = String::from_str(
        "<?xml version=\"1.0\" encoding=\"UTF-8\"?>\n<!DOCTYPE ncx PUBLIC \"-//NISO//DTD ncx 2005-1//EN\" \"http://www.daisy.org/z3986/2005/ncx-2005-1.dtd\">",
    );
    out.append("<ncx");
    append_attr(&mut out, "xmlns", n.xmlns.as_str());
    append_attr(&mut out, "version", n.version.as_str());
    append_attr(&mut out, "xml:lang", n.lang.as_str());
    out.append(">");
    out.append("<head>");
    let metas = encode_metas(&n.head.meta);
    out.append(metas.as_str());
    out.append("</head>");
    out.append("<docTitle><text>");
    append_escaped(&mut out, n.doc_title.text.as_str());
    out.append("</text></docTitle>");
    out.append("<navMap>");
    let nps = encode_navpoints(&n.nav_map.nav_point);
    out.append(nps.as_str());
    out.append("</navMap>");
    out.append("</ncx>");
    out
}

/// The anchor of a list item: a link and its text.
#[derive(Debug)]
pub struct Anchor {
    pub href: String,
    pub text: String,
}

/// An ordered list of list items.
#[derive(Debug)]
pub struct OrderList {
    pub list: Vec<List>,
}

impl Default for OrderList {
    fn default() -> (r: OrderList)
        ensures
            r.list@ == Seq::<List>::empty(),
    {
        OrderList { list: Vec::new() }
    }
}

/// One list item: an anchor and, when the node has children, a nested
/// ordered list.
#[derive(Debug)]
pub struct List {
    pub anchor: Anchor,
    pub order_list: Option<OrderList>,
}

/// Ghost model of a list item.
pub ghost struct ListModel {
    pub href: Seq<char>,
    pub text: Seq<char>,
    pub sub: Option<Seq<ListModel>>,
}

/// Models of a sequence of list items.
pub open spec fn list_models(ls: Seq<List>) -> Seq<ListModel>
    decreases ls,
{
    if ls.len() == 0 {
        Seq::empty()
    } else {
        list_models(ls.drop_last()).push(ls.last().model())
    }
}

impl List {
    /// The ghost model of this list item.
    pub open spec fn model(self) -> ListModel
        decreases self,
    {
        ListModel {
            href: self.anchor.href@,
            text: self.anchor.text@,
            sub: match self.order_list {
                Option::None => Option::None,
                Option::Some(ol) => Option::Some(list_models(ol.list@)),
            },
        }
    }

    /// A leaf list item.
    pub fn new(title: String, href: String) -> (r: List)
        ensures
            r.model() == (ListModel { href: href@, text: title@, sub: Option::None }),
    {
        List { anchor: Anchor { href, text: title }, order_list: Option::None }
    }
}

pub proof fn lemma_list_models_push(ls: Seq<List>, x: List)
    ensures
        list_models(ls.push(x)) == list_models(ls).push(x.model()),
{
    assert(ls.push(x).drop_last() =~= ls);
    assert(ls.push(x).last() == x);
}

pub proof fn lemma_list_models_index(ls: Seq<List>)
    ensures
        list_models(ls).len() == ls.len(),
        forall|i: int| 0 <= i < ls.len() ==> list_models(ls)[i] == ls[i].model(),
    decreases ls,
{
    if ls.len() > 0 {
        lemma_list_models_index(ls.drop_last());
    }
}

/// The projection of a navigation node into a list item.
pub open spec fn list_from(m: TocElemModel) -> ListModel
    decreases m,
{
    ListModel {
        href: m.url,
        text: m.title,
        sub: if m.childs.len() == 0 {
            Option::None
        } else {
            Option::Some(lists_from(m.childs))
        },
    }
}

/// The projection of a forest into list items, in order.
pub open spec fn lists_from(cs: Seq<TocElemModel>) -> Seq<ListModel>
    decreases cs,
{
    if cs.len() == 0 {
        Seq::empty()
    } else {
        lists_from(cs.drop_last()).push(list_from(cs.last()))
    }
}

pub proof fn lemma_lists_from_index(cs: Seq<TocElemModel>)
    ensures
        lists_from(cs).len() == cs.len(),
        forall|i: int| 0 <= i < cs.len() ==> lists_from(cs)[i] == list_from(cs[i]),
    decreases cs,
{
    if cs.len() > 0 {
        lemma_lists_from_index(cs.drop_last());
    }
}

impl List {
    /// Project a navigation node into a list item.
    pub fn from_toc_element(e: &TocElement) -> (r: List)
        ensures
            r.model() == list_from(e.model()),
        decreases *e,
    {
        let order_list = if e.childs.len() == 0 {
            Option::None
        } else {
            Option::Some(OrderList::from_toc_elements(&e.childs))
        };
        let r = List {
            anchor: Anchor { href: e.url.clone(), text: e.title.clone() },
            order_list,
        };
        proof {
            if e.childs@.len() == 0 {
                assert(toc_models(e.childs@) =~= Seq::<TocElemModel>::empty());
            }
        }
        r
    }
}

impl OrderList {
    /// Project a forest into an ordered list.
    pub fn from_toc_elements(es: &Vec<TocElement>) -> (r: OrderList)
        ensures
            list_models(r.list@) == lists_from(toc_models(es@)),
        decreases es,
    {
        let ghost cs0 = es@;
        let ghost ms = toc_models(cs0);
        let mut out: Vec<List> = Vec::new();
        let mut i: usize = 0;
        proof {
            lemma_toc_models_index(cs0);
            lemma_lists_from_index(ms);
            assert(list_models(out@) =~= Seq::<ListModel>::empty());
            assert(lists_from(ms.subrange(0, 0)) =~= Seq::<ListModel>::empty());
        }
        while i < es.len()
            invariant
                i <= cs0.len(),
                es@ == cs0,
                ms == toc_models(cs0),
                ms.len() == cs0.len(),
                forall|j: int| 0 <= j < cs0.len() ==> ms[j] == cs0[j].model(),
                list_models(out@) == lists_from(ms.subrange(0, i as int)),
            decreases cs0.len() - i,
        {
            let item = List::from_toc_element(&es[i]);
            proof {
                lemma_list_models_push(out@, item);
                let pre = ms.subrange(0, i as int);
                let cur = ms.subrange(0, i + 1 as int);
                assert(cur.drop_last() =~= pre);
                assert(cur.last() == ms[i as int]);
            }
            out.push(item);
            i = i + 1;
        }
        proof {
            assert(ms.subrange(0, ms.len() as int) =~= ms);
        }
        OrderList { list: out }
    }
}

/// The heading element of the list-style navigation block.
#[derive(Debug)]
pub struct H1 {
    pub id: Option<String>,
    pub text: String,
}

/// The navigation block of the list-style document.
#[derive(Debug)]
pub struct NavToc {
    pub epub_type: String,
    pub id: String,
    pub h1: H1,
    pub order_list: OrderList,
}

impl NavToc {
    /// A fresh navigation block titled `title`.
    pub fn new(title: String) -> (r: NavToc)
        ensures
            r.epub_type@ == "toc"@,
            r.id@ == "toc"@,
            r.h1.id is None,
            r.h1.text@ == title@,
            r.order_list.list@ == Seq::<List>::empty(),
    {
        NavToc {
            epub_type: String::from_str("toc"),
            id: String::from_str("toc"),
            h1: H1 { id: Option::None, text: title },
            order_list: OrderList::default(),
        }
    }

    /// Append a list item to the navigation block.
    pub fn add_list(&mut self, list: List)
        ensures
            final(self).epub_type == old(self).epub_type,
            final(self).id == old(self).id,
            final(self).h1 == old(self).h1,
            list_models(final(self).order_list.list@) == list_models(
                old(self).order_list.list@,
            ).push(list.model()),
    {
        proof {
            lemma_list_models_push(self.order_list.list@, list);
        }
        self.order_list.list.push(list);
    }
}

/// The head of the list-style document.
#[derive(Debug)]
pub struct Head {
    pub meta: Vec<MetaItem>,
    pub title: String,
}

impl Head {
    /// A fresh head titled `title` with no metadata.
    pub fn new(title: String) -> (r: Head)
        ensures
            r.meta@ == Seq::<MetaItem>::empty(),
            r.title@ == title@,
    {
        Head { meta: Vec::new(), title }
    }
}

/// The body of the list-style document.
#[derive(Debug)]
pub struct Body {
    pub nav_toc: NavToc,
}

impl Body {
    /// A fresh body whose navigation block is titled `title`.
    pub fn new(title: String) -> (r: Body)
        ensures
            r.nav_toc.epub_type@ == "toc"@,
            r.nav_toc.id@ == "toc"@,
            r.nav_toc.h1.id is None,
            r.nav_toc.h1.text@ == title@,
            r.nav_toc.order_list.list@ == Seq::<List>::empty(),
    {
        Body { nav_toc: NavToc::new(title) }
    }
}

/// The list-style navigation document.
#[derive(Debug)]
pub struct Html {
    pub xmlns: String,
    pub xmlns_epub: String,
    pub head: Head,
    pub body: Body,
}

impl Html {
    /// A fresh list-style document titled `title`.
    pub fn new(title: String) -> (r: Html)
        ensures
            r.xmlns@ == "http://www.w3.org/1999/xhtml"@,
            r.xmlns_epub@ == "http://www.idpf.org/2007/ops"@,
            r.head.meta@ == Seq::<MetaItem>::empty(),
            r.head.title@ == title@,
            r.body.nav_toc.epub_type@ == "toc"@,
            r.body.nav_toc.id@ == "toc"@,
            r.body.nav_toc.h1.id is None,
            r.body.nav_toc.h1.text@ == title@,
            r.body.nav_toc.order_list.list@ == Seq::<List>::empty(),
    {
        let title2 = title.clone();
        Html {
            xmlns: String::from_str("http://www.w3.org/1999/xhtml"),
            xmlns_epub: String::from_str("http://www.idpf.org/2007/ops"),
            head: Head::new(title),
            body: Body::new(title2),
        }
    }
}

/// Markup of one list item and its nested list.
pub open spec fn li_xml(l: ListModel) -> Seq<char>
    decreases l,
{
    "<li>"@ + "<a"@ + attr_spec("href"@, l.href) + ">"@ + escape_spec(l.text) + "</a>"@
        + li_sub_part(l.sub) + "</li>"@
}

/// Markup of the optional nested list of a list item.
pub open spec fn li_sub_part(sub: Option<Seq<ListModel>>) -> Seq<char>
    decreases sub,
{
    match sub {
        Option::None => Seq::empty(),
        Option::Some(ls) => "<ol>"@ + lis_xml(ls) + "</ol>"@,
    }
}

/// Markup of a sequence of list items in order.
pub open spec fn lis_xml(ls: Seq<ListModel>) -> Seq<char>
    decreases ls,
{
    if ls.len() == 0 {
        Seq::empty()
    } else {
        lis_xml(ls.drop_last()) + li_xml(ls.last())
    }
}

/// Render one list item and its nested list.
fn encode_li(l: &List) -> (r: String)
    ensures
        r@ == li_xml(l.model()),
    decreases *l,
{
    let mut out = String::from_str("<li>");
    out.append("<a");
    append_attr(&mut out, "href", l.anchor.href.as_str());
    out.append(">");
    append_escaped(&mut out, l.anchor.text.as_str());
    out.append("</a>");
    let sub = match &l.order_list {
        Option::None => String::new(),
        Option::Some(ol) => {
            let mut s = String::from_str("<ol>");
            let inner = encode_lis(&ol.list);
            s.append(inner.as_str());
            s.append("</ol>");
            s
        },
    };
    out.append(sub.as_str());
    out.append("</li>");
    proof {
        assert(out@ =~= li_xml(l.model()));
    }
    out
}

/// Render a sequence of list items in order.
fn encode_lis(ls: &Vec<List>) -> (r: String)
    ensures
        r@ == lis_xml(list_models(ls@)),
    decreases ls,
{
    let ghost ms = list_models(ls@);
    let mut out = String::new();
    let mut i: usize = 0;
    proof {
        lemma_list_models_index(ls@);
        assert(ms.subrange(0, 0) =~= Seq::<ListModel>::empty());
    }
    while i < ls.len()
        invariant
            i <= ls@.len(),
            ms == list_models(ls@),
            ms.len() == ls@.len(),
            forall|j: int| 0 <= j < ls@.len() ==> ms[j] == ls@[j].model(),
            out@ == lis_xml(ms.subrange(0, i as int)),
        decreases ls@.len() - i,
    {
        let s = encode_li(&ls[i]);
        out.append(s.as_str());
        proof {
            let pre = ms.subrange(0, i as int);
            let cur = ms.subrange(0, i + 1 as int);
            assert(cur.drop_last() =~= pre);
            assert(cur.last() == ms[i as int]);
        }
        i = i + 1;
    }
    proof {
        assert(ms.subrange(0, ms.len() as int) =~= ms);
    }
    out
}

/// Markup of the heading of the navigation block.
pub open spec fn h1_part(h: H1) -> Seq<char> {
    "<h1"@ + (match h.id {
        Option::None => Seq::<char>::empty(),
        Option::Some(i) => attr_spec("id"@, i@),
    }) + ">"@ + escape_spec(h.text@) + "</h1>"@
}

/// The complete markup of a list-style navigation document.
pub open spec fn nav_doc_spec(h: Html) -> Seq<char> {
    "<?xml version=\"1.0\" encoding=\"UTF-8\"?>\n<!DOCTYPE html>"@ + "<html"@ + attr_spec(
        "xmlns"@,
        h.xmlns@,
    ) + attr_spec("xmlns:epub"@, h.xmlns_epub@) + ">"@ + "<head>"@ + metas_xml(
        h.head.meta@.map_values(|m: MetaItem| (m.name@, m.content@)),
    ) + "<title>"@ + escape_spec(h.head.title@) + "</title>"@ + "</head>"@ + "<body>"@ + "<nav"@
        + attr_spec("epub:type"@, h.body.nav_toc.epub_type@) + attr_spec(
        "id"@,
        h.body.nav_toc.id@,
    ) + ">"@ + h1_part(h.body.nav_toc.h1) + "<ol>"@ + lis_xml(
        list_models(h.body.nav_toc.order_list.list@),
    ) + "</ol>"@ + "</nav>"@ + "</body>"@ + "</html>"@
}

/// Render a complete list-style navigation document.
pub fn nav_encode(h: &Html) -> (r: String)
    ensures
        r@ == nav_doc_spec(*h),
{
    let mut out = String::from_str("<?xml version=\"1.0\" encoding=\"UTF-8\"?>\n<!DOCTYPE html>");
    out.append("<html");
    append_attr(&mut out, "xmlns", h.xmlns.as_str());
    append_attr(&mut out, "xmlns:epub", h.xmlns_epub.as_str());
    out.append(">");
    out.append("<head>");
    let metas = encode_metas(&h.head.meta);
    out.append(metas.as_str());
    out.append("<title>");
    append_escaped(&mut out, h.head.title.as_str());
    out.append("</title>");
    out.append("</head>");
    out.append("<body>");
    out.append("<nav");
    append_attr(&mut out, "epub:type", h.body.nav_toc.epub_type.as_str());
    append_attr(&mut out, "id", h.body.nav_toc.id.as_str());
    out.append(">");
    let h1s = match &h.body.nav_toc.h1.id {
        Option::None => {
            let mut s = String::from_str("<h1");
            s.append(">");
            append_escaped(&mut s, h.body.nav_toc.h1.text.as_str());
            s.append("</h1>");
            s
        },
        Option::Some(i) => {
            let mut s = String::from_str("<h1");
            append_attr(&mut s, "id", i.as_str());
            s.append(">");
            append_escaped(&mut s, h.body.nav_toc.h1.text.as_str());
            s.append("</h1>");
            s
        },
    };
    out.append(h1s.as_str());
    proof {
        assert(h1s@ =~= h1_part(h.body.nav_toc.h1));
    }
    out.append("<ol>");
    let lis = encode_lis(&h.body.nav_toc.order_list.list);
    out.append(lis.as_str());
    out.append("</ol>");
    out.append("</nav>");
    out.append("</body>");
    out.append("</html>");
    out
}

/// The dialect-independent navigation input: a title, a language tag,
/// caller-supplied header metadata, and the forest of navigation nodes.
#[derive(Debug)]
pub struct TocNav {
    pub title: String,
    pub lang: String,
    pub metadata: Vec<(String, String)>,
    pub elements: Vec<TocElement>,
}

/// The complete markup that the index-style dialect produces for the
/// given title, language, header metadata and forest, with traversal
/// order numbers assigned by depth-first pre-order starting at 0.
pub open spec fn ncx_file_view_spec(
    title: Seq<char>,
    lang: Seq<char>,
    metas: Seq<(Seq<char>, Seq<char>)>,
    elems: Seq<TocElemModel>,
) -> Seq<char> {
    "<?xml version=\"1.0\" encoding=\"UTF-8\"?>\n<!DOCTYPE ncx PUBLIC \"-//NISO//DTD ncx 2005-1//EN\" \"http://www.daisy.org/z3986/2005/ncx-2005-1.dtd\">"@
        + "<ncx"@ + attr_spec("xmlns"@, "http://www.daisy.org/z3986/2005/ncx/"@) + attr_spec(
        "version"@,
        "2005-1"@,
    ) + attr_spec("xml:lang"@, lang) + ">"@ + "<head>"@ + metas_xml(metas) + "</head>"@
        + "<docTitle><text>"@ + escape_spec(title) + "</text></docTitle>"@ + "<navMap>"@
        + navpoints_xml(nps_from(elems, 0)) + "</navMap>"@ + "</ncx>"@
}

/// The complete markup that the index-style dialect produces for `nav`.
pub open spec fn ncx_file_spec(nav: TocNav) -> Seq<char> {
    ncx_file_view_spec(nav.title@, nav.lang@, pair_views(nav.metadata@), toc_models(nav.elements@))
}

/// The complete markup that the list-style dialect produces for the given
/// title, header metadata and forest.
pub open spec fn nav_file_view_spec(
    title: Seq<char>,
    metas: Seq<(Seq<char>, Seq<char>)>,
    elems: Seq<TocElemModel>,
) -> Seq<char> {
    "<?xml version=\"1.0\" encoding=\"UTF-8\"?>\n<!DOCTYPE html>"@ + "<html"@ + attr_spec(
        "xmlns"@,
        "http://www.w3.org/1999/xhtml"@,
    ) + attr_spec("xmlns:epub"@, "http://www.idpf.org/2007/ops"@) + ">"@ + "<head>"@ + metas_xml(
        metas,
    ) + "<title>"@ + escape_spec(title) + "</title>"@ + "</head>"@ + "<body>"@ + "<nav"@
        + attr_spec("epub:type"@, "toc"@) + attr_spec("id"@, "toc"@) + ">"@ + "<h1"@ + Seq::<
        char,
    >::empty() + ">"@ + escape_spec(title) + "</h1>"@ + "<ol>"@ + lis_xml(lists_from(elems))
        + "</ol>"@ + "</nav>"@ + "</body>"@ + "</html>"@
}

/// The complete markup that the list-style dialect produces for `nav`.
pub open spec fn nav_file_spec(nav: TocNav) -> Seq<char> {
    nav_file_view_spec(nav.title@, pair_views(nav.metadata@), toc_models(nav.elements@))
}

impl TocNav {
    /// A fresh navigation input with no metadata and no nodes.
    pub fn new(title: String, lang: String) -> (r: TocNav)
        ensures
            r.title@ == title@,
            r.lang@ == lang@,
            r.metadata@ == Seq::<(String, String)>::empty(),
            r.elements@ == Seq::<TocElement>::empty(),
    {
        TocNav { title, lang, metadata: Vec::new(), elements: Vec::new() }
    }

    /// Append a header metadata pair.
    pub fn add_metadata(&mut self, name: String, value: String)
        ensures
            final(self).metadata@ == old(self).metadata@.push((name, value)),
            final(self).title == old(self).title,
            final(self).lang == old(self).lang,
            final(self).elements == old(self).elements,
    {
        self.metadata.push((name, value));
    }

    /// Append a top-level navigation node.
    pub fn add_element(&mut self, elem: TocElement)
        ensures
            final(self).elements@ == old(self).elements@.push(elem),
            final(self).title == old(self).title,
            final(self).lang == old(self).lang,
            final(self).metadata == old(self).metadata,
    {
        self.elements.push(elem);
    }

    /// Render the navigation document in the dialect selected by `ver`.
    /// The index-style dialect numbers every node and refuses a forest
    /// whose node count does not fit the counter.
    pub fn encode_file(&self, ver: EpubVersion) -> (r: Result<String, Error>)
        ensures
            match ver {
                EpubVersion::V20 => match r {
                    Result::Ok(s) => count_list(toc_models(self.elements@)) <= u64::MAX && s@
                        == ncx_file_spec(*self),
                    Result::Err(e) => count_list(toc_models(self.elements@)) > u64::MAX
                        && e is NonEncodable,
                },
                EpubVersion::V30 => r matches Result::Ok(s) && s@ == nav_file_spec(*self),
            },
    {
        match ver {
            EpubVersion::V20 => self.encode_ncx_file(),
            EpubVersion::V30 => self.encode_nav_file(),
        }
    }

    /// Render the index-style document.
    fn encode_ncx_file(&self) -> (r: Result<String, Error>)
        ensures
            match r {
                Result::Ok(s) => count_list(toc_models(self.elements@)) <= u64::MAX && s@
                    == ncx_file_spec(*self),
                Result::Err(e) => count_list(toc_models(self.elements@)) > u64::MAX
                    && e is NonEncodable,
            },
    {
        match count_forest_checked(&self.elements) {
            Option::None => Result::Err(
                Error::NonEncodable(String::from_str("navigation tree is too large to number")),
            ),
            Option::Some(_) => {
                let mut ncx = TocNCX::new(self.title.clone(), self.lang.clone());
                let metas = convert_meta_pairs(&self.metadata);
                ncx.head = Metadata { meta: metas };
                let (points, _) = nav_points_from(&self.elements, 0);
                ncx.nav_map = NavMap { nav_point: points };
                let s = ncx_encode(&ncx);
                Result::Ok(s)
            },
        }
    }

    /// Render the list-style document.
    fn encode_nav_file(&self) -> (r: Result<String, Error>)
        ensures
            r matches Result::Ok(s) && s@ == nav_file_spec(*self),
    {
        let mut html = Html::new(self.title.clone());
        let metas = convert_meta_pairs(&self.metadata);
        html.head.meta = metas;
        let ol = OrderList::from_toc_elements(&self.elements);
        html.body.nav_toc.order_list = ol;
        let s = nav_encode(&html);
        proof {
            assert(h1_part(html.body.nav_toc.h1) == "<h1"@ + Seq::<char>::empty() + ">"@
                + escape_spec(self.title@) + "</h1>"@);
        }
        Result::Ok(s)
    }
}

/// Turn name/value pairs into header metadata entries.
fn convert_meta_pairs(ps: &Vec<(String, String)>) -> (r: Vec<MetaItem>)
    ensures
        r@.map_values(|m: MetaItem| (m.name@, m.content@)) == pair_views(ps@),
{
    let mut out: Vec<MetaItem> = Vec::new();
    let mut i: usize = 0;
    while i < ps.len()
        invariant
            i <= ps@.len(),
            out@.len() == i,
            forall|j: int| 0 <= j < i ==> (#[trigger] out@[j]).name@ == ps@[j].0@ && out@[j].content@
                == ps@[j].1@,
        decreases ps@.len() - i,
    {
        let name = ps[i].0.clone();
        let content = ps[i].1.clone();
        out.push(MetaItem { name, content });
        i = i + 1;
    }
    proof {
        assert(out@.map_values(|m: MetaItem| (m.name@, m.content@)) =~= pair_views(ps@));
    }
    out
}

/// The dialect-neutral shape of a navigation encoding: the link, the
/// label, and the shapes of the children in order.
pub ghost struct NavShape {
    pub url: Seq<char>,
    pub title: Seq<char>,
    pub childs: Seq<NavShape>,
}

/// The shape of a navigation node.
pub open spec fn elem_shape(m: TocElemModel) -> NavShape
    decreases m,
{
    NavShape { url: m.url, title: m.title, childs: elem_shapes(m.childs) }
}

/// The shapes of a forest of navigation nodes.
pub open spec fn elem_shapes(cs: Seq<TocElemModel>) -> Seq<NavShape>
    decreases cs,
{
    if cs.len() == 0 {
        Seq::empty()
    } else {
        elem_shapes(cs.drop_last()).push(elem_shape(cs.last()))
    }
}

/// The shape of a numbered navigation-map node.
pub open spec fn np_shape(m: NavPointModel) -> NavShape
    decreases m,
{
    NavShape {
        url: match m.src {
            Option::Some(s) => s,
            Option::None => Seq::empty(),
        },
        title: match m.label {
            Option::Some(t) => t,
            Option::None => Seq::empty(),
        },
        childs: np_shapes(m.childs),
    }
}

/// The shapes of a sequence of navigation-map nodes.
pub open spec fn np_shapes(ms: Seq<NavPointModel>) -> Seq<NavShape>
    decreases ms,
{
    if ms.len() == 0 {
        Seq::empty()
    } else {
        np_shapes(ms.drop_last()).push(np_shape(ms.last()))
    }
}

/// The shape of a list item.
pub open spec fn list_shape(m: ListModel) -> NavShape
    decreases m,
{
    NavShape {
        url: m.href,
        title: m.text,
        childs: match m.sub {
            Option::None => Seq::empty(),
            Option::Some(ls) => list_shapes(ls),
        },
    }
}

/// The shapes of a sequence of list items.
pub open spec fn list_shapes(ms: Seq<ListModel>) -> Seq<NavShape>
    decreases ms,
{
    if ms.len() == 0 {
        Seq::empty()
    } else {
        list_shapes(ms.drop_last()).push(list_shape(ms.last()))
    }
}

/// The numbered index-style projection preserves the shape of the node,
/// whatever order number it starts from.
pub proof fn lemma_np_shape(m: TocElemModel, n: nat)
    ensures
        np_shape(np_from(m, n)) == elem_shape(m),
    decreases m,
{
    lemma_np_shapes(m.childs, (n + 1) as nat);
}

pub proof fn lemma_np_shapes(cs: Seq<TocElemModel>, n: nat)
    ensures
        np_shapes(nps_from(cs, n)) == elem_shapes(cs),
    decreases cs,
{
    if cs.len() > 0 {
        lemma_np_shapes(cs.drop_last(), n);
        lemma_np_shape(cs.last(), (n + count_list(cs.drop_last())) as nat);
        assert(nps_from(cs, n).drop_last() =~= nps_from(cs.drop_last(), n)) by {
            lemma_nps_from_len(cs, n);
            lemma_nps_from_len(cs.drop_last(), n);
            lemma_nps_from_prefix(cs, n, cs.len() - 1);
            assert(cs.subrange(0, cs.len() - 1) =~= cs.drop_last());
            assert(nps_from(cs, n).subrange(0, cs.len() - 1) =~= nps_from(cs, n).drop_last());
        }
        assert(nps_from(cs, n).last() == np_from(cs.last(), (n + count_list(cs.drop_last())) as nat));
    }
}

/// The list-style projection preserves the shape of the node.
pub proof fn lemma_list_shape(m: TocElemModel)
    ensures
        list_shape(list_from(m)) == elem_shape(m),
    decreases m,
{
    if m.childs.len() == 0 {
        assert(elem_shapes(m.childs) =~= Seq::<NavShape>::empty());
    } else {
        lemma_list_shapes(m.childs);
    }
}

pub proof fn lemma_list_shapes(cs: Seq<TocElemModel>)
    ensures
        list_shapes(lists_from(cs)) == elem_shapes(cs),
    decreases cs,
{
    if cs.len() > 0 {
        lemma_list_shapes(cs.drop_last());
        lemma_list_shape(cs.last());
        assert(lists_from(cs).drop_last() =~= lists_from(cs.drop_last())) by {
            lemma_lists_from_index(cs);
            lemma_lists_from_index(cs.drop_last());
            assert(forall|j: int| 0 <= j < cs.len() - 1 ==> lists_from(cs)[j] == list_from(
                #[trigger] cs.drop_last()[j],
            ));
        }
    }
}

/// The two dialects encode the same forest with the same node order and
/// nesting: the shapes of the numbered index-style projection and of the
/// list-style projection are both exactly the shape of the forest itself,
/// whatever order number the index-style numbering starts from.
pub proof fn lemma_dialects_preserve_structure(cs: Seq<TocElemModel>, n: nat)
    ensures
        np_shapes(nps_from(cs, n)) == elem_shapes(cs),
        list_shapes(lists_from(cs)) == elem_shapes(cs),
        np_shapes(nps_from(cs, n)) == list_shapes(lists_from(cs)),
{
    lemma_np_shapes(cs, n);
    lemma_list_shapes(cs);
}

/// Adding a child to a well-levelled node keeps the tree well-levelled.
pub proof fn lemma_add_child_levels_wf(m: TocElemModel, child: TocElemModel)
    requires
        levels_wf(m),
        levels_wf(child),
    ensures
        levels_wf(
            TocElemModel {
                childs: m.childs.push(
                    if child.level <= m.level {
                        renumber_model(child, m.level + 1)
                    } else {
                        child
                    },
                ),
                ..m
            },
        ),
{
    let added = if child.level <= m.level {
        renumber_model(child, m.level + 1)
    } else {
        child
    };
    if child.level <= m.level {
        lemma_renumber_levels_wf(child, m.level + 1);
    }
    let r = TocElemModel { childs: m.childs.push(added), ..m };
    assert forall|i: int| 0 <= i < r.childs.len() implies (#[trigger] r.childs[i]).level > r.level
        && levels_wf(r.childs[i]) by {
        if i < m.childs.len() {
            assert(r.childs[i] == m.childs[i]);
        } else {
            assert(r.childs[i] == added);
        }
    }
}

} // verus!
