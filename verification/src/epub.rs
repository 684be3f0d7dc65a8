//! The builder: the section tree with filename governance, the per-class
//! resource registries, and the cover slot, together with the projection
//! of the tree into the navigation encoder's input.

use crate::strutil::{dec_spec, seq_contains_str, u64_to_dec, views_of};
use crate::toc::{count_list, toc_models, TocElemModel, TocElement, TocNav};
use crate::xhtml::{xhtml_model, XHtmlLinkItem, XHtmlModel, XHtmlRoot};
use crate::{add_media, auto_media_name, remove_key_spec, resolved_media_name, Error, MediaMap,
    SourceRef};
use vstd::prelude::*;
use vstd::multiset::Multiset;
use vstd::seq_lib::lemma_multiset_commutative;

verus! {

broadcast use {
    vstd::std_specs::vec::axiom_vec_index_decreases,
    vstd::std_specs::vec::axiom_vec_decreases_to_view,
    vstd::seq::axiom_seq_index_decreases,
    vstd::seq::axiom_seq_subrange_decreases,
    vstd::seq_lib::group_to_multiset_ensures,
    vstd::multiset::group_multiset_axioms,
};

/// The schema dialect of the package: the older or the newer version.
#[derive(Debug, Clone, Copy)]
pub enum EpubVersion {
    V20,
    V30,
}

/// A content node: a stable file name (unique across the whole tree), a
/// title, a wrapped content document, and ordered children.
#[derive(Debug)]
pub struct Section {
    pub filename: String,
    pub title: String,
    pub xhtml: XHtmlRoot,
    pub childs: Vec<Section>,
}

/// Ghost model of a content node.
#[verifier::ext_equal]
pub ghost struct SectionModel {
    pub filename: Seq<char>,
    pub title: Seq<char>,
    pub xhtml: XHtmlModel,
    pub childs: Seq<SectionModel>,
}

/// Models of a sequence of content nodes, in order.
pub open spec fn sec_models(ss: Seq<Section>) -> Seq<SectionModel>
    decreases ss,
{
    if ss.len() == 0 {
        Seq::empty()
    } else {
        sec_models(ss.drop_last()).push(ss.last().model())
    }
}

impl Section {
    /// The ghost model of this node.
    pub open spec fn model(self) -> SectionModel
        decreases self,
    {
        SectionModel {
            filename: self.filename@,
            title: self.title@,
            xhtml: xhtml_model(self.xhtml),
            childs: sec_models(self.childs@),
        }
    }

    /// A fresh node with this filename, an empty title and a default
    /// document.
    pub fn new(filename: String) -> (r: Section)
        ensures
            r.model().filename == filename@,
            r.model().title == Seq::<char>::empty(),
            r.model().childs == Seq::<SectionModel>::empty(),
            r.xhtml.xmlns@ == "http://www.w3.org/1999/xhtml"@,
            r.xhtml.xmlns_epub@ == "http://www.idpf.org/2007/ops"@,
            r.xhtml.head.lang@ == Seq::<char>::empty(),
            r.xhtml.head.title.text@ == Seq::<char>::empty(),
            r.xhtml.head.title.dir matches Option::Some(d) && d@ == "auto"@,
            r.xhtml.head.link@ == Seq::<crate::xhtml::XHtmlLinkItem>::empty(),
            r.xhtml.head.style_content@ == Seq::<crate::xhtml::StyleContent>::empty(),
            r.xhtml.body.content@ == Seq::<char>::empty(),
            r.xhtml.body.dir matches Option::Some(d) && d@ == "auto"@,
    {
        let r = Section {
            filename,
            title: String::new(),
            xhtml: XHtmlRoot::default(),
            childs: Vec::new(),
        };
        proof {
            assert(sec_models(r.childs@) =~= Seq::<SectionModel>::empty());
        }
        r
    }
}

impl Default for Section {
    fn default() -> (r: Section)
        ensures
            r.model().filename == Seq::<char>::empty(),
            r.model().title == Seq::<char>::empty(),
            r.model().childs == Seq::<SectionModel>::empty(),
    {
        Section::new(String::new())
    }
}

pub proof fn lemma_sec_models_push(ss: Seq<Section>, x: Section)
    ensures
        sec_models(ss.push(x)) == sec_models(ss).push(x.model()),
{
    assert(ss.push(x).drop_last() =~= ss);
    assert(ss.push(x).last() == x);
}

pub proof fn lemma_sec_models_index(ss: Seq<Section>)
    ensures
        sec_models(ss).len() == ss.len(),
        forall|i: int| 0 <= i < ss.len() ==> sec_models(ss)[i] == ss[i].model(),
    decreases ss,
{
    if ss.len() > 0 {
        lemma_sec_models_index(ss.drop_last());
    }
}

/// The filenames of a subtree: the node's own name followed by the names
/// below it.
pub open spec fn names_of(m: SectionModel) -> Seq<Seq<char>>
    decreases m,
{
    seq![m.filename] + forest_names(m.childs)
}

/// The filenames of a forest, in traversal order.
pub open spec fn forest_names(ms: Seq<SectionModel>) -> Seq<Seq<char>>
    decreases ms,
{
    if ms.len() == 0 {
        Seq::empty()
    } else {
        forest_names(ms.drop_last()) + names_of(ms.last())
    }
}

pub proof fn lemma_forest_names_concat(a: Seq<SectionModel>, b: Seq<SectionModel>)
    ensures
        forest_names(a + b) == forest_names(a) + forest_names(b),
    decreases b,
{
    if b.len() == 0 {
        assert(a + b =~= a);
        assert(forest_names(a) + forest_names(b) =~= forest_names(a));
    } else {
        assert((a + b).drop_last() =~= a + b.drop_last());
        assert((a + b).last() == b.last());
        lemma_forest_names_concat(a, b.drop_last());
        assert(forest_names(a) + forest_names(b.drop_last()) + names_of(b.last()) =~= forest_names(
            a,
        ) + forest_names(b));
    }
}

pub proof fn lemma_forest_names_single(m: SectionModel)
    ensures
        forest_names(seq![m]) == names_of(m),
{
    let s = seq![m];
    assert(s.len() == 1);
    assert(s.last() == m);
    assert(s.drop_last() =~= Seq::<SectionModel>::empty());
    assert(forest_names(s.drop_last()) == Seq::<Seq<char>>::empty());
    assert(forest_names(s) == forest_names(s.drop_last()) + names_of(m));
    assert(Seq::<Seq<char>>::empty() + names_of(m) =~= names_of(m));
}

/// A forest's names split at one element.
pub proof fn lemma_forest_names_split(ms: Seq<SectionModel>, i: int)
    requires
        0 <= i < ms.len(),
    ensures
        forest_names(ms) == forest_names(ms.subrange(0, i)) + names_of(ms[i]) + forest_names(
            ms.subrange(i + 1, ms.len() as int),
        ),
{
    assert(ms =~= ms.subrange(0, i) + seq![ms[i]] + ms.subrange(i + 1, ms.len() as int));
    lemma_forest_names_concat(ms.subrange(0, i) + seq![ms[i]], ms.subrange(i + 1, ms.len() as int));
    lemma_forest_names_concat(ms.subrange(0, i), seq![ms[i]]);
    lemma_forest_names_single(ms[i]);
}

/// Parts of a duplicate-free concatenation are duplicate-free and
/// disjoint.
pub proof fn lemma_no_dup_parts(a: Seq<Seq<char>>, b: Seq<Seq<char>>)
    requires
        (a + b).no_duplicates(),
    ensures
        a.no_duplicates(),
        b.no_duplicates(),
        forall|x: Seq<char>| a.contains(x) ==> !b.contains(x),
{
    assert(forall|i: int| 0 <= i < a.len() ==> (a + b)[i] == a[i]);
    assert(forall|i: int| 0 <= i < b.len() ==> (a + b)[a.len() + i] == b[i]);
    assert forall|x: Seq<char>| a.contains(x) implies !b.contains(x) by {
        if a.contains(x) && b.contains(x) {
            let i = choose|i: int| 0 <= i < a.len() && a[i] == x;
            let j = choose|j: int| 0 <= j < b.len() && b[j] == x;
            assert((a + b)[i] == (a + b)[a.len() + j]);
        }
    }
}

/// Attachment of `c` under the node named `p`: every node with that name
/// receives `c` as its last child (a well-formed tree has at most one).
pub open spec fn attach_node(m: SectionModel, p: Seq<char>, c: SectionModel) -> SectionModel
    decreases m,
{
    if m.filename == p {
        SectionModel { childs: m.childs.push(c), ..m }
    } else {
        SectionModel { childs: attach_forest(m.childs, p, c), ..m }
    }
}

/// Attachment of `c` under the node named `p` anywhere in a forest.
pub open spec fn attach_forest(ms: Seq<SectionModel>, p: Seq<char>, c: SectionModel) -> Seq<
    SectionModel,
>
    decreases ms,
{
    if ms.len() == 0 {
        Seq::empty()
    } else {
        attach_forest(ms.drop_last(), p, c).push(attach_node(ms.last(), p, c))
    }
}

pub proof fn lemma_attach_forest_index(ms: Seq<SectionModel>, p: Seq<char>, c: SectionModel)
    ensures
        attach_forest(ms, p, c).len() == ms.len(),
        forall|i: int| 0 <= i < ms.len() ==> attach_forest(ms, p, c)[i] == attach_node(ms[i], p, c),
    decreases ms,
{
    if ms.len() > 0 {
        lemma_attach_forest_index(ms.drop_last(), p, c);
    }
}

/// A node whose subtree does not hold the name is unchanged by
/// attachment.
pub proof fn lemma_attach_node_absent(m: SectionModel, p: Seq<char>, c: SectionModel)
    requires
        !names_of(m).contains(p),
    ensures
        attach_node(m, p, c) == m,
    decreases m,
{
    assert(names_of(m)[0] == m.filename);
    assert forall|x: Seq<char>| forest_names(m.childs).contains(x) implies names_of(m).contains(
        x,
    ) by {
        let i = choose|i: int| 0 <= i < forest_names(m.childs).len() && forest_names(m.childs)[i]
            == x;
        assert(names_of(m)[1 + i] == x);
    }
    lemma_attach_forest_absent(m.childs, p, c);
    assert(SectionModel { childs: m.childs, ..m } == m);
}

/// A forest without the name is unchanged by attachment.
pub proof fn lemma_attach_forest_absent(ms: Seq<SectionModel>, p: Seq<char>, c: SectionModel)
    requires
        !forest_names(ms).contains(p),
    ensures
        attach_forest(ms, p, c) == ms,
    decreases ms,
{
    if ms.len() > 0 {
        assert(forest_names(ms) == forest_names(ms.drop_last()) + names_of(ms.last()));
        assert forall|x: Seq<char>| forest_names(ms.drop_last()).contains(x) implies forest_names(
            ms,
        ).contains(x) by {
            let i = choose|i: int|
                0 <= i < forest_names(ms.drop_last()).len() && forest_names(ms.drop_last())[i] == x;
            assert(forest_names(ms)[i] == x);
        }
        assert forall|x: Seq<char>| names_of(ms.last()).contains(x) implies forest_names(
            ms,
        ).contains(x) by {
            let i = choose|i: int|
                0 <= i < names_of(ms.last()).len() && names_of(ms.last())[i] == x;
            assert(forest_names(ms)[forest_names(ms.drop_last()).len() + i] == x);
        }
        lemma_attach_forest_absent(ms.drop_last(), p, c);
        lemma_attach_node_absent(ms.last(), p, c);
        assert(attach_forest(ms, p, c) =~= ms);
    }
}

/// Multiset count of a name in a forest, split at one element.
pub proof fn lemma_names_count_split(ms: Seq<SectionModel>, i: int, x: Seq<char>)
    requires
        0 <= i < ms.len(),
    ensures
        forest_names(ms).to_multiset().count(x) == forest_names(ms.subrange(0, i)).to_multiset()
            .count(x) + names_of(ms[i]).to_multiset().count(x) + forest_names(
            ms.subrange(i + 1, ms.len() as int),
        ).to_multiset().count(x),
{
    lemma_forest_names_split(ms, i);
    let a = forest_names(ms.subrange(0, i));
    let b = names_of(ms[i]);
    let c = forest_names(ms.subrange(i + 1, ms.len() as int));
    lemma_multiset_commutative(a + b, c);
    lemma_multiset_commutative(a, b);
}

/// Two distinct elements of a forest contribute their counts separately.
pub proof fn lemma_names_pair_count(ms: Seq<SectionModel>, i: int, j: int, x: Seq<char>)
    requires
        0 <= i < j < ms.len(),
    ensures
        forest_names(ms).to_multiset().count(x) >= names_of(ms[i]).to_multiset().count(x)
            + names_of(ms[j]).to_multiset().count(x),
{
    lemma_names_count_split(ms, j, x);
    lemma_names_count_split(ms.subrange(0, j), i, x);
    assert(ms.subrange(0, j)[i] == ms[i]);
}

/// In a forest whose names are pairwise distinct, a name held by one
/// element's subtree is held by no other element's subtree.
pub proof fn lemma_unique_location(ms: Seq<SectionModel>, i: int, x: Seq<char>)
    requires
        forest_names(ms).no_duplicates(),
        0 <= i < ms.len(),
        names_of(ms[i]).contains(x),
    ensures
        forall|j: int| 0 <= j < ms.len() && j != i ==> !names_of(ms[j]).contains(x),
{
    forest_names(ms).lemma_multiset_has_no_duplicates();
    assert forall|j: int| 0 <= j < ms.len() && j != i implies !names_of(ms[j]).contains(x) by {
        if names_of(ms[j]).contains(x) {
            if i < j {
                lemma_names_pair_count(ms, i, j, x);
            } else {
                lemma_names_pair_count(ms, j, i, x);
            }
            assert(names_of(ms[i]).to_multiset().count(x) > 0);
            assert(names_of(ms[j]).to_multiset().count(x) > 0);
            assert(forest_names(ms).to_multiset().count(x) >= 2);
            lemma_names_count_split(ms, i, x);
            assert(forest_names(ms).to_multiset().count(x) > 0);
            assert(forest_names(ms).to_multiset().contains(x));
        }
    }
}

/// The names below a node sit inside the node's own name sequence.
pub proof fn lemma_child_names_within(m: SectionModel)
    ensures
        forall|x: Seq<char>| forest_names(m.childs).contains(x) ==> names_of(m).contains(x),
        names_of(m).contains(m.filename),
        names_of(m).to_multiset().count(m.filename) >= 1,
        forall|x: Seq<char>|
            names_of(m).to_multiset().count(x) == seq![m.filename].to_multiset().count(x)
                + forest_names(m.childs).to_multiset().count(x),
{
    assert(names_of(m)[0] == m.filename);
    assert forall|x: Seq<char>| forest_names(m.childs).contains(x) implies names_of(m).contains(
        x,
    ) by {
        let i = choose|i: int|
            0 <= i < forest_names(m.childs).len() && forest_names(m.childs)[i] == x;
        assert(names_of(m)[1 + i] == x);
    }
    lemma_multiset_commutative(seq![m.filename], forest_names(m.childs));
    assert(names_of(m).to_multiset().contains(m.filename));
}

/// The names of a duplicate-free node subtree split into the node's own
/// name and duplicate-free child names.
pub proof fn lemma_node_no_dup_parts(m: SectionModel)
    requires
        names_of(m).no_duplicates(),
    ensures
        forest_names(m.childs).no_duplicates(),
        !forest_names(m.childs).contains(m.filename),
{
    lemma_no_dup_parts(seq![m.filename], forest_names(m.childs));
    assert(seq![m.filename][0] == m.filename);
    assert(seq![m.filename].contains(m.filename));
}

/// Appending a child to a forest appends its names.
pub proof fn lemma_forest_names_push(ms: Seq<SectionModel>, c: SectionModel)
    ensures
        forest_names(ms.push(c)) == forest_names(ms) + names_of(c),
        forest_names(ms.push(c)).to_multiset() == forest_names(ms).to_multiset().add(
            names_of(c).to_multiset(),
        ),
{
    assert(ms.push(c).drop_last() =~= ms);
    assert(ms.push(c).last() == c);
    lemma_multiset_commutative(forest_names(ms), names_of(c));
}

/// A node whose children's names gained exactly the names of `cm` has
/// itself gained exactly those names.
pub proof fn lemma_names_after_childs_change(
    m: SectionModel,
    new_childs: Seq<SectionModel>,
    cm: SectionModel,
)
    requires
        forest_names(new_childs).to_multiset() == forest_names(m.childs).to_multiset().add(
            names_of(cm).to_multiset(),
        ),
    ensures
        names_of(SectionModel { childs: new_childs, ..m }).to_multiset() == names_of(
            m,
        ).to_multiset().add(names_of(cm).to_multiset()),
{
    let m2 = SectionModel { childs: new_childs, ..m };
    lemma_multiset_commutative(seq![m.filename], forest_names(m.childs));
    lemma_multiset_commutative(seq![m2.filename], forest_names(m2.childs));
    assert(names_of(m2).to_multiset() =~= names_of(m).to_multiset().add(
        names_of(cm).to_multiset(),
    ));
}

/// Attach a node under the parent with the given filename, wherever it
/// sits in the forest.  When the parent is absent the child is handed
/// back and nothing changes.
pub(crate) fn attach_in_forest(ss: &mut Vec<Section>, parent: &String, child: Section) -> (rest:
    Option<Section>)
    requires
        forest_names(sec_models(old(ss)@)).no_duplicates(),
    ensures
        match rest {
            Option::Some(c) => c == child && sec_models(final(ss)@) == sec_models(old(ss)@)
                && !forest_names(sec_models(old(ss)@)).contains(parent@),
            Option::None => forest_names(sec_models(old(ss)@)).contains(parent@) && sec_models(
                final(ss)@,
            ) == attach_forest(sec_models(old(ss)@), parent@, child.model()) && forest_names(
                sec_models(final(ss)@),
            ).to_multiset() == forest_names(sec_models(old(ss)@)).to_multiset().add(
                names_of(child.model()).to_multiset(),
            ),
        },
    decreases old(ss)@,
{
    let ghost ss0 = old(ss)@;
    let ghost ms0 = sec_models(ss0);
    let ghost child0 = child;
    let ghost cm = child.model();
    proof {
        lemma_sec_models_index(ss0);
    }
    let mut pending = Option::Some(child);
    let mut i: usize = 0;
    while i < ss.len()
        invariant
            i <= ss@.len(),
            ss@.len() == ss0.len(),
            ss0 == old(ss)@,
            ms0 == sec_models(ss0),
            ms0.len() == ss0.len(),
            cm == child0.model(),
            forest_names(ms0).no_duplicates(),
            forall|j: int| i <= j < ss0.len() ==> ss@[j] == ss0[j],
            match pending {
                Option::Some(c) => c == child0 && sec_models(ss@) == ms0 && (forall|j: int|
                    0 <= j < i ==> !names_of(ms0[j]).contains(parent@)),
                Option::None => forest_names(ms0).contains(parent@) && sec_models(ss@)
                    == attach_forest(ms0, parent@, cm) && forest_names(
                    sec_models(ss@),
                ).to_multiset() == forest_names(ms0).to_multiset().add(
                    names_of(cm).to_multiset(),
                ),
            },
        decreases ss@.len() - i,
    {
        let taken = pending;
        pending = Option::None;
        match taken {
            Option::None => {
                pending = Option::None;
            },
            Option::Some(p_child) => {
                let ghost ssc = ss@;
                proof {
                    lemma_sec_models_index(ssc);
                    assert(p_child == child0);
                    assert(p_child.model() == cm);
                    assert(ssc[i as int].model() == ms0[i as int]);
                }
                let mut sec = ss.remove(i);
                proof {
                    assert(sec == ssc[i as int]);
                    assert(sec == ss0[i as int]);
                    assert(sec.model() == ms0[i as int]);
                }
                if sec.filename.eq(parent) {
                    proof {
                        lemma_sec_models_push(sec.childs@, p_child);
                    }
                    sec.childs.push(p_child);
                    proof {
                        assert(sec.model().childs == ms0[i as int].childs.push(cm));
                        assert(sec.model() =~= attach_node(ms0[i as int], parent@, cm));
                        lemma_forest_names_push(ms0[i as int].childs, cm);
                        lemma_names_after_childs_change(
                            ms0[i as int],
                            ms0[i as int].childs.push(cm),
                            cm,
                        );
                        assert(names_of(ms0[i as int])[0] == parent@);
                    }
                    ss.insert(i, sec);
                    proof {
                        assert(ss@ =~= ssc.update(i as int, sec));
                        lemma_after_attach(ssc, ms0, i as int, sec, parent@, cm);
                    }
                } else {
                    proof {
                        lemma_forest_names_split(ms0, i as int);
                        lemma_no_dup_parts(
                            forest_names(ms0.subrange(0, i as int)) + names_of(ms0[i as int]),
                            forest_names(ms0.subrange(i + 1 as int, ms0.len() as int)),
                        );
                        lemma_no_dup_parts(
                            forest_names(ms0.subrange(0, i as int)),
                            names_of(ms0[i as int]),
                        );
                        lemma_node_no_dup_parts(ms0[i as int]);
                        assert(decreases_to!(ss0 => ss0[i as int]));
                        assert(decreases_to!(ss0[i as int] => ss0[i as int].childs));
                        assert(decreases_to!(ss0[i as int].childs => ss0[i as int].childs@));
                        assert(sec.childs@ == ss0[i as int].childs@);
                        assert(decreases_to!(ss0 => ss0[i as int].childs@));
                        assert(decreases_to!(ss0 => sec.childs@));
                    }
                    let r = attach_in_forest(&mut sec.childs, parent, p_child);
                    ss.insert(i, sec);
                    match r {
                        Option::Some(c2) => {
                            proof {
                                assert(sec.model().childs == ms0[i as int].childs);
                                assert(sec.model() =~= ms0[i as int]);
                                assert(ss@ =~= ssc.update(i as int, sec));
                                lemma_sec_models_index(ss@);
                                assert(sec_models(ss@) =~= ms0);
                                assert(!names_of(ms0[i as int]).contains(parent@)) by {
                                    lemma_child_names_within(ms0[i as int]);
                                    if names_of(ms0[i as int]).contains(parent@) {
                                        let k = choose|k: int|
                                            0 <= k < names_of(ms0[i as int]).len() && names_of(
                                                ms0[i as int],
                                            )[k] == parent@;
                                        assert(k != 0);
                                        assert(forest_names(ms0[i as int].childs)[k - 1]
                                            == parent@);
                                    }
                                }
                            }
                            pending = Option::Some(c2);
                        },
                        Option::None => {
                            proof {
                                assert(sec.model().childs == attach_forest(
                                    ms0[i as int].childs,
                                    parent@,
                                    cm,
                                ));
                                assert(sec.model() =~= attach_node(ms0[i as int], parent@, cm));
                                assert(names_of(ms0[i as int]).contains(parent@)) by {
                                    let k = choose|k: int|
                                        0 <= k < forest_names(ms0[i as int].childs).len()
                                            && forest_names(ms0[i as int].childs)[k] == parent@;
                                    assert(names_of(ms0[i as int])[1 + k] == parent@);
                                }
                                lemma_names_after_childs_change(
                                    ms0[i as int],
                                    attach_forest(ms0[i as int].childs, parent@, cm),
                                    cm,
                                );
                                assert(ss@ =~= ssc.update(i as int, sec));
                                lemma_after_attach(ssc, ms0, i as int, sec, parent@, cm);
                            }
                        },
                    }
                }
            },
        }
        i = i + 1;
    }
    proof {
        if pending is Some {
            assert(!forest_names(ms0).contains(parent@)) by {
                if forest_names(ms0).contains(parent@) {
                    lemma_forest_member_location(ms0, parent@);
                }
            }
        }
    }
    pending
}

/// Removing the subtree of the root-level node at `i`, whose filename is
/// `f`, removes exactly that element.
proof fn lemma_remove_root(ms0: Seq<SectionModel>, i: int, f: Seq<char>)
    requires
        0 <= i < ms0.len(),
        forest_names(ms0).no_duplicates(),
        ms0[i].filename == f,
    ensures
        remove_forest(ms0, f) == ms0.remove(i),
        forest_names(ms0).to_multiset() == forest_names(ms0.remove(i)).to_multiset().add(
            names_of(ms0[i]).to_multiset(),
        ),
        forest_names(ms0).contains(f),
{
    let a = ms0.subrange(0, i);
    let b = ms0.subrange(i + 1, ms0.len() as int);
    assert(ms0 =~= a + seq![ms0[i]] + b);
    assert(names_of(ms0[i])[0] == f);
    lemma_unique_location(ms0, i, f);
    lemma_remove_forest_concat(a + seq![ms0[i]], b, f);
    lemma_remove_forest_concat(a, seq![ms0[i]], f);
    assert(remove_forest(seq![ms0[i]], f) =~= Seq::<SectionModel>::empty()) by {
        let s1 = seq![ms0[i]];
        assert(s1.len() == 1);
        assert(s1.drop_last() =~= Seq::<SectionModel>::empty());
        assert(s1.last() == ms0[i]);
        assert(s1.last().filename == f);
        assert(remove_forest(s1.drop_last(), f) == Seq::<SectionModel>::empty());
        assert(remove_forest(s1, f) == remove_forest(s1.drop_last(), f));
    }
    assert forall|x: Seq<char>| forest_names(a).contains(x) implies forest_names(ms0).contains(
        x,
    ) && !names_of(ms0[i]).contains(x) by {
        lemma_forest_names_split(ms0, i);
        let k = choose|k: int| 0 <= k < forest_names(a).len() && forest_names(a)[k] == x;
        assert(forest_names(ms0)[k] == x);
        lemma_forest_member_location(a, x);
        let j = choose|j: int| 0 <= j < a.len() && names_of(a[j]).contains(x);
        assert(ms0[j] == a[j]);
        lemma_unique_location(ms0, j, x);
    }
    assert forall|x: Seq<char>| forest_names(b).contains(x) implies !names_of(ms0[i]).contains(
        x,
    ) by {
        lemma_forest_member_location(b, x);
        let j = choose|j: int| 0 <= j < b.len() && names_of(b[j]).contains(x);
        assert(ms0[i + 1 + j] == b[j]);
        lemma_unique_location(ms0, i + 1 + j, x);
    }
    lemma_remove_forest_absent(a, f);
    lemma_remove_forest_absent(b, f);
    assert(remove_forest(ms0, f) =~= a + b);
    assert(ms0.remove(i) =~= a + b);
    lemma_forest_names_split(ms0, i);
    lemma_forest_names_concat(a, b);
    lemma_multiset_commutative(forest_names(a) + names_of(ms0[i]), forest_names(b));
    lemma_multiset_commutative(forest_names(a), names_of(ms0[i]));
    lemma_multiset_commutative(forest_names(a), forest_names(b));
    assert(forest_names(ms0).to_multiset() =~= forest_names(a + b).to_multiset().add(
        names_of(ms0[i]).to_multiset(),
    ));
    let k = choose|k: int| 0 <= k < names_of(ms0[i]).len() && names_of(ms0[i])[k] == f;
    assert(forest_names(ms0)[forest_names(a).len() + k] == f);
}

/// After replacing element `i` by the node with the named subtree removed
/// from its children, the forest is exactly the removal, and its names
/// lose exactly the removed subtree's names.
proof fn lemma_after_remove_deep(
    ss0: Seq<Section>,
    ms0: Seq<SectionModel>,
    i: int,
    sec: Section,
    f: Seq<char>,
    removed: SectionModel,
)
    requires
        0 <= i < ss0.len(),
        ms0 == sec_models(ss0),
        forest_names(ms0).no_duplicates(),
        ms0[i].filename != f,
        forest_names(ms0[i].childs).contains(f),
        sec.model() == remove_node(ms0[i], f),
        forest_names(ms0[i].childs).to_multiset() == forest_names(
            remove_forest(ms0[i].childs, f),
        ).to_multiset().add(names_of(removed).to_multiset()),
    ensures
        sec_models(ss0.update(i, sec)) == remove_forest(ms0, f),
        forest_names(ms0).to_multiset() == forest_names(
            sec_models(ss0.update(i, sec)),
        ).to_multiset().add(names_of(removed).to_multiset()),
        forest_names(ms0).contains(f),
{
    lemma_sec_models_index(ss0);
    lemma_sec_models_index(ss0.update(i, sec));
    assert(names_of(ms0[i]).contains(f)) by {
        let k = choose|k: int|
            0 <= k < forest_names(ms0[i].childs).len() && forest_names(ms0[i].childs)[k] == f;
        assert(names_of(ms0[i])[1 + k] == f);
    }
    lemma_unique_location(ms0, i, f);
    let new_ms = sec_models(ss0.update(i, sec));
    assert forall|j: int| 0 <= j < ms0.len() && j != i implies remove_node(ms0[j], f) == ms0[j]
        && ms0[j].filename != f by {
        lemma_remove_node_absent(ms0[j], f);
        assert(names_of(ms0[j])[0] == ms0[j].filename);
    }
    assert(remove_forest(ms0, f) =~= new_ms) by {
        lemma_remove_no_root_matches(ms0, f);
    }
    // name accounting: the node at `i` lost exactly the removed names
    assert(names_of(ms0[i]).to_multiset() == names_of(remove_node(ms0[i], f)).to_multiset().add(
        names_of(removed).to_multiset(),
    )) by {
        lemma_multiset_commutative(seq![ms0[i].filename], forest_names(ms0[i].childs));
        lemma_multiset_commutative(
            seq![ms0[i].filename],
            forest_names(remove_forest(ms0[i].childs, f)),
        );
        assert(names_of(ms0[i]).to_multiset() =~= names_of(
            remove_node(ms0[i], f),
        ).to_multiset().add(names_of(removed).to_multiset()));
    }
    assert forall|x: Seq<char>|
        forest_names(ms0).to_multiset().count(x) == forest_names(new_ms).to_multiset().add(
            names_of(removed).to_multiset(),
        ).count(x) by {
        lemma_names_count_split(ms0, i, x);
        lemma_names_count_split(new_ms, i, x);
        assert(new_ms.subrange(0, i) =~= ms0.subrange(0, i));
        assert(new_ms.subrange(i + 1, new_ms.len() as int) =~= ms0.subrange(
            i + 1,
            ms0.len() as int,
        ));
        assert(new_ms[i] == remove_node(ms0[i], f));
    }
    assert(forest_names(ms0).to_multiset() =~= forest_names(new_ms).to_multiset().add(
        names_of(removed).to_multiset(),
    ));
    let k = choose|k: int| 0 <= k < names_of(ms0[i]).len() && names_of(ms0[i])[k] == f;
    lemma_forest_names_split(ms0, i);
    assert(forest_names(ms0)[forest_names(ms0.subrange(0, i)).len() + k] == f);
}

/// When no root-level node is named `f`, removal maps over the elements.
pub proof fn lemma_remove_no_root_matches(ms: Seq<SectionModel>, f: Seq<char>)
    requires
        forall|j: int| 0 <= j < ms.len() ==> (#[trigger] ms[j]).filename != f,
    ensures
        remove_forest(ms, f).len() == ms.len(),
        forall|j: int| 0 <= j < ms.len() ==> remove_forest(ms, f)[j] == remove_node(ms[j], f),
    decreases ms,
{
    if ms.len() > 0 {
        assert(forall|j: int| 0 <= j < ms.drop_last().len() ==> ms.drop_last()[j] == ms[j]);
        lemma_remove_no_root_matches(ms.drop_last(), f);
    }
}

/// Detach the subtree rooted at the node with the given filename, wherever
/// it sits in the forest, and hand it back.  When no node has the name the
/// forest is unchanged.
pub(crate) fn remove_from_forest(ss: &mut Vec<Section>, name: &String) -> (r: Option<Section>)
    requires
        forest_names(sec_models(old(ss)@)).no_duplicates(),
    ensures
        match r {
            Option::None => !forest_names(sec_models(old(ss)@)).contains(name@) && sec_models(
                final(ss)@,
            ) == sec_models(old(ss)@),
            Option::Some(sec) => forest_names(sec_models(old(ss)@)).contains(name@) && sec.model().filename
                == name@ && sec_models(final(ss)@) == remove_forest(sec_models(old(ss)@), name@)
                && forest_names(sec_models(old(ss)@)).to_multiset() == forest_names(
                sec_models(final(ss)@),
            ).to_multiset().add(names_of(sec.model()).to_multiset()),
        },
    decreases old(ss)@,
{
    let ghost ss0 = old(ss)@;
    let ghost ms0 = sec_models(ss0);
    proof {
        lemma_sec_models_index(ss0);
    }
    let mut found: Option<Section> = Option::None;
    let mut i: usize = 0;
    while i < ss.len()
        invariant
            ss0 == old(ss)@,
            ms0 == sec_models(ss0),
            ms0.len() == ss0.len(),
            forest_names(ms0).no_duplicates(),
            i <= ss0.len(),
            ss@.len() <= ss0.len(),
            match found {
                Option::None => i <= ss@.len() && ss@.len() == ss0.len() && sec_models(ss@) == ms0
                    && (forall|j: int| i <= j < ss0.len() ==> ss@[j] == ss0[j]) && (forall|j: int|
                    0 <= j < i ==> !names_of(ms0[j]).contains(name@)),
                Option::Some(sec) => forest_names(ms0).contains(name@) && sec.model().filename
                    == name@ && sec_models(ss@) == remove_forest(ms0, name@) && forest_names(
                    ms0,
                ).to_multiset() == forest_names(sec_models(ss@)).to_multiset().add(
                    names_of(sec.model()).to_multiset(),
                ),
            },
        decreases ss0.len() - i,
    {
        if found.is_none() {
            let ghost ssc = ss@;
            proof {
                lemma_sec_models_index(ssc);
                assert(ssc[i as int].model() == ms0[i as int]);
            }
            let mut sec = ss.remove(i);
            proof {
                assert(sec == ssc[i as int]);
                assert(sec == ss0[i as int]);
                assert(sec.model() == ms0[i as int]);
            }
            if sec.filename.eq(name) {
                proof {
                    assert(ss@ =~= ssc.remove(i as int));
                    lemma_remove_root(ms0, i as int, name@);
                    assert(sec_models(ss@) =~= ms0.remove(i as int)) by {
                        lemma_sec_models_index(ss@);
                    }
                }
                found = Option::Some(sec);
            } else {
                proof {
                    lemma_forest_names_split(ms0, i as int);
                    lemma_no_dup_parts(
                        forest_names(ms0.subrange(0, i as int)) + names_of(ms0[i as int]),
                        forest_names(ms0.subrange(i + 1 as int, ms0.len() as int)),
                    );
                    lemma_no_dup_parts(
                        forest_names(ms0.subrange(0, i as int)),
                        names_of(ms0[i as int]),
                    );
                    lemma_node_no_dup_parts(ms0[i as int]);
                    assert(decreases_to!(ss0 => ss0[i as int]));
                    assert(decreases_to!(ss0[i as int] => ss0[i as int].childs));
                    assert(decreases_to!(ss0[i as int].childs => ss0[i as int].childs@));
                    assert(sec.childs@ == ss0[i as int].childs@);
                }
                let r = remove_from_forest(&mut sec.childs, name);
                ss.insert(i, sec);
                match r {
                    Option::None => {
                        proof {
                            assert(sec.model().childs == ms0[i as int].childs);
                            assert(sec.model() =~= ms0[i as int]);
                            assert(ss@ =~= ssc.update(i as int, sec));
                            lemma_sec_models_index(ss@);
                            assert(sec_models(ss@) =~= ms0);
                            assert(!names_of(ms0[i as int]).contains(name@)) by {
                                lemma_child_names_within(ms0[i as int]);
                                if names_of(ms0[i as int]).contains(name@) {
                                    let k = choose|k: int|
                                        0 <= k < names_of(ms0[i as int]).len() && names_of(
                                            ms0[i as int],
                                        )[k] == name@;
                                    assert(k != 0);
                                    assert(forest_names(ms0[i as int].childs)[k - 1] == name@);
                                }
                            }
                        }
                    },
                    Option::Some(x) => {
                        proof {
                            assert(sec.model().childs == remove_forest(
                                ms0[i as int].childs,
                                name@,
                            ));
                            assert(sec.model() =~= remove_node(ms0[i as int], name@));
                            assert(ss@ =~= ssc.update(i as int, sec));
                            lemma_after_remove_deep(
                                ssc,
                                ms0,
                                i as int,
                                sec,
                                name@,
                                x.model(),
                            );
                        }
                        found = Option::Some(x);
                    },
                }
            }
        }
        i = i + 1;
    }
    proof {
        if found is None {
            assert(!forest_names(ms0).contains(name@)) by {
                if forest_names(ms0).contains(name@) {
                    lemma_forest_member_location(ms0, name@);
                }
            }
        }
    }
    found
}

/// The cover slot: the image's display name, the internal names of the
/// registered image and optional stylesheet, and the filename of the
/// generated content node.
#[derive(Debug, Clone)]
pub struct Cover {
    pub filename: String,
    pub css_filename: Option<String>,
    pub image_filename: String,
    pub xhtml_filename: String,
}

impl Cover {
    /// A cover record holding only the display name.
    pub fn new(filename: String) -> (r: Cover)
        ensures
            r.filename@ == filename@,
            r.css_filename is None,
            r.image_filename@ == Seq::<char>::empty(),
            r.xhtml_filename@ == Seq::<char>::empty(),
    {
        Cover {
            filename,
            css_filename: Option::None,
            image_filename: String::new(),
            xhtml_filename: String::new(),
        }
    }
}

impl Default for Cover {
    fn default() -> (r: Cover)
        ensures
            r.filename@ == Seq::<char>::empty(),
            r.css_filename is None,
            r.image_filename@ == Seq::<char>::empty(),
            r.xhtml_filename@ == Seq::<char>::empty(),
    {
        Cover::new(String::new())
    }
}

/// The filename synthesized for the `j`-th automatically named section.
pub open spec fn section_auto_name(j: nat) -> Seq<char> {
    "section_"@ + dec_spec(j) + ".xhtml"@
}

/// Distinct numbers synthesize distinct section filenames.
pub proof fn lemma_section_auto_injective(a: nat, b: nat)
    requires
        section_auto_name(a) == section_auto_name(b),
    ensures
        a == b,
{
    reveal_strlit("section_");
    reveal_strlit(".xhtml");
    let na = section_auto_name(a);
    let da = dec_spec(a);
    let db = dec_spec(b);
    assert(na.len() == 8 + da.len() + 6);
    assert(na.len() == 8 + db.len() + 6);
    assert(da.len() == db.len());
    assert(da =~= db) by {
        assert(forall|i: int| 0 <= i < da.len() ==> na[8 + i] == da[i]);
        assert(forall|i: int|
            0 <= i < db.len() ==> section_auto_name(b)[8 + i] == db[i]);
    }
    crate::strutil::lemma_dec_injective(a, b);
}

/// Whether `name` is the first free automatically synthesized filename:
/// the candidates are numbered upward from one past the registry size, and
/// every earlier candidate is already taken.
pub open spec fn is_first_free_auto(names: Seq<Seq<char>>, name: Seq<char>) -> bool {
    exists|j: int|
        names.len() + 1 <= j && name == #[trigger] section_auto_name(j as nat) && !names.contains(
            section_auto_name(j as nat),
        ) && (forall|t: int|
            names.len() + 1 <= t < j ==> names.contains(#[trigger] section_auto_name(t as nat)))
}

/// At most `names.len()` distinct synthesized candidates can be taken.
proof fn lemma_candidates_bound(names: Seq<Seq<char>>, start: int, k: int)
    requires
        0 <= start,
        0 <= k,
        forall|t: int| 0 <= t < k ==> names.contains(#[trigger] section_auto_name((start + t) as nat)),
    ensures
        k <= names.len(),
{
    broadcast use vstd::seq_lib::seq_to_set_is_finite;

    let c = Seq::new(k as nat, |t: int| section_auto_name((start + t) as nat));
    assert(c.no_duplicates()) by {
        assert forall|x: int, y: int|
            0 <= x < c.len() && 0 <= y < c.len() && x != y implies c[x] != c[y] by {
            if c[x] == c[y] {
                lemma_section_auto_injective((start + x) as nat, (start + y) as nat);
            }
        }
    }
    c.unique_seq_to_set();
    assert(c.to_set().subset_of(names.to_set())) by {
        assert forall|x: Seq<char>| c.to_set().contains(x) implies names.to_set().contains(x) by {
            let t = choose|t: int| 0 <= t < c.len() && c[t] == x;
            assert(names.contains(section_auto_name((start + t) as nat)));
            let idx = choose|idx: int| 0 <= idx < names.len() && names[idx] == x;
            assert(names.to_set().contains(names[idx]));
        }
    }
    vstd::set_lib::lemma_len_subset(c.to_set(), names.to_set());
    names.lemma_cardinality_of_set();
}

/// When the registry holds exactly the first `k` automatic names, the
/// next assigned automatic name is the `k + 1`-st: automatic numbering
/// follows the insertion count.
pub proof fn lemma_auto_names_sequential(names: Seq<Seq<char>>, name: Seq<char>)
    requires
        forall|i: int| 0 <= i < names.len() ==> names[i] == section_auto_name((i + 1) as nat),
        is_first_free_auto(names, name),
    ensures
        name == section_auto_name((names.len() + 1) as nat),
{
    let k = names.len() as int;
    let j = choose|j: int|
        k + 1 <= j && name == #[trigger] section_auto_name(j as nat) && !names.contains(
            section_auto_name(j as nat),
        ) && (forall|t: int| k + 1 <= t < j ==> names.contains(#[trigger] section_auto_name(t as nat)));
    if j > k + 1 {
        assert(names.contains(section_auto_name((k + 1) as nat)));
        let idx = choose|idx: int|
            0 <= idx < names.len() && names[idx] == section_auto_name((k + 1) as nat);
        lemma_section_auto_injective((idx + 1) as nat, (k + 1) as nat);
    }
}

/// The filename with the fixed content extension appended when it is not
/// already there.
pub open spec fn with_xhtml_ext(name: Seq<char>) -> Seq<char> {
    if crate::strutil::ext_spec(crate::strutil::base_name_spec(name)) == Option::Some("xhtml"@) {
        name
    } else {
        name + ".xhtml"@
    }
}

/// The views of the pairs with every binding for `k` replaced by `v`.
pub open spec fn replace_pairs(ps: Seq<(String, String)>, k: Seq<char>, v: Seq<char>) -> Seq<
    (Seq<char>, Seq<char>),
>
    decreases ps,
{
    if ps.len() == 0 {
        Seq::empty()
    } else {
        replace_pairs(ps.drop_last(), k, v).push(
            if ps.last().0@ == k {
                (k, v)
            } else {
                (ps.last().0@, ps.last().1@)
            },
        )
    }
}

/// The views of the pairs with the binding for `k` replaced by `v`, or
/// appended when no binding exists.
pub open spec fn upsert_pairs(ps: Seq<(String, String)>, k: Seq<char>, v: Seq<char>) -> Seq<
    (Seq<char>, Seq<char>),
> {
    if crate::entry_keys(ps).contains(k) {
        replace_pairs(ps, k, v)
    } else {
        replace_pairs(ps, k, v).push((k, v))
    }
}

/// A name list contains a view exactly when its view list does.
pub proof fn lemma_contains_views(names: Seq<String>, x: Seq<char>)
    ensures
        seq_contains_str(names, x) <==> views_of(names).contains(x),
{
    if seq_contains_str(names, x) {
        let i = choose|i: int| 0 <= i < names.len() && names[i]@ == x;
        assert(views_of(names)[i] == x);
    }
    if views_of(names).contains(x) {
        let i = choose|i: int| 0 <= i < views_of(names).len() && views_of(names)[i] == x;
        assert(names[i]@ == x);
    }
}

/// The model of the content node `add_sub_section` constructs: a default
/// document carrying the body verbatim, the title, and the stylesheet
/// link when one was registered.
pub open spec fn new_section_model(
    name: Seq<char>,
    title: Seq<char>,
    body: Seq<char>,
    css: Option<Seq<char>>,
) -> SectionModel {
    SectionModel {
        filename: name,
        title,
        xhtml: crate::xhtml::XHtmlModel {
            xmlns: "http://www.w3.org/1999/xhtml"@,
            xmlns_epub: "http://www.idpf.org/2007/ops"@,
            lang: Seq::empty(),
            title_text: title,
            title_dir: Option::None,
            links: match css {
                Option::None => Seq::empty(),
                Option::Some(href) => seq![
                    crate::xhtml::LinkModel {
                        href,
                        rel: Option::None,
                        link_type: Option::Some("text/css"@),
                    },
                ],
            },
            styles: Seq::empty(),
            body,
            body_dir: Option::Some("auto"@),
        },
        childs: Seq::empty(),
    }
}

/// Render the `j`-th automatic section filename.
fn make_section_name(j: u64) -> (r: String)
    ensures
        r@ == section_auto_name(j as nat),
{
    let mut s = String::from_str("section_");
    let d = u64_to_dec(j);
    s.append(d.as_str());
    s.append(".xhtml");
    s
}

/// The internal stylesheet name and link target that registering `src`
/// without an explicit name resolves to.
pub open spec fn css_auto_name(styles: Seq<Seq<char>>, loc: Seq<char>) -> Seq<char> {
    resolved_media_name(styles, Option::None, loc, "style"@)
}

/// The builder: bibliographic fields, the five asset-class registries,
/// the section forest with its flat name registry, and the cover slot.
#[derive(Debug)]
pub struct EpubBuilder {
    pub title: String,
    pub creator: Vec<String>,
    pub subject: Option<String>,
    pub description: Option<String>,
    pub date: Option<crate::datetime::EpubDateTime>,
    pub category: Option<String>,
    pub publisher: Option<String>,
    pub contributor: Option<String>,
    pub format: Option<String>,
    pub identifier: Option<String>,
    pub source: Option<String>,
    pub language: Option<String>,
    pub relation: Option<String>,
    pub coverage: Option<String>,
    pub rights: Option<String>,
    pub cover: Option<Cover>,
    pub metadata: Option<Vec<(String, String)>>,
    pub stylesheet: MediaMap,
    pub fonts: MediaMap,
    pub images: MediaMap,
    pub videos: MediaMap,
    pub audios: MediaMap,
    pub sections: Vec<Section>,
    pub filenames: Vec<String>,
    pub version: EpubVersion,
}

impl Default for EpubBuilder {
    fn default() -> (r: EpubBuilder)
        ensures
            r.wf(),
            r.title@ == Seq::<char>::empty(),
            r.version is V20,
            r.sections@ == Seq::<Section>::empty(),
            r.filenames@ == Seq::<String>::empty(),
    {
        EpubBuilder::new(String::new(), EpubVersion::V20)
    }
}

impl EpubBuilder {
    /// Well-formedness: filenames are pairwise distinct, the flat name
    /// registry mirrors exactly the names in the forest, and every asset
    /// class has unique internal names.
    pub open spec fn wf(self) -> bool {
        views_of(self.filenames@).no_duplicates() && forest_names(
            sec_models(self.sections@),
        ).no_duplicates() && forest_names(sec_models(self.sections@)).to_multiset() == views_of(
            self.filenames@,
        ).to_multiset() && self.stylesheet.wf() && self.fonts.wf() && self.images.wf()
            && self.videos.wf() && self.audios.wf()
    }

    /// A fresh builder for a book with this title, producing the given
    /// dialect.
    pub fn new(title: String, ver: EpubVersion) -> (r: EpubBuilder)
        ensures
            r.wf(),
            r.title@ == title@,
            r.creator@ == Seq::<String>::empty(),
            r.subject is None,
            r.description is None,
            r.date is None,
            r.category is None,
            r.publisher is None,
            r.contributor is None,
            r.format is None,
            r.identifier is None,
            r.source is None,
            r.language is None,
            r.relation is None,
            r.coverage is None,
            r.rights is None,
            r.cover is None,
            r.metadata is None,
            r.stylesheet.entries@ == Seq::<(String, String)>::empty(),
            r.fonts.entries@ == Seq::<(String, String)>::empty(),
            r.images.entries@ == Seq::<(String, String)>::empty(),
            r.videos.entries@ == Seq::<(String, String)>::empty(),
            r.audios.entries@ == Seq::<(String, String)>::empty(),
            r.sections@ == Seq::<Section>::empty(),
            r.filenames@ == Seq::<String>::empty(),
            r.version == ver,
    {
        let r = EpubBuilder {
            title,
            creator: Vec::new(),
            subject: Option::None,
            description: Option::None,
            date: Option::None,
            category: Option::None,
            publisher: Option::None,
            contributor: Option::None,
            format: Option::None,
            identifier: Option::None,
            source: Option::None,
            language: Option::None,
            relation: Option::None,
            coverage: Option::None,
            rights: Option::None,
            cover: Option::None,
            metadata: Option::None,
            stylesheet: MediaMap::new(),
            fonts: MediaMap::new(),
            images: MediaMap::new(),
            videos: MediaMap::new(),
            audios: MediaMap::new(),
            sections: Vec::new(),
            filenames: Vec::new(),
            version: ver,
        };
        proof {
            assert(views_of(r.filenames@) =~= Seq::<Seq<char>>::empty());
            assert(sec_models(r.sections@) =~= Seq::<SectionModel>::empty());
            assert(forest_names(sec_models(r.sections@)).to_multiset() =~= views_of(
                r.filenames@,
            ).to_multiset());
        }
        r
    }

    /// Set the identifier.
    pub fn set_id(&mut self, id: String)
        ensures
            *final(self) == (EpubBuilder { identifier: Option::Some(id), ..*old(self) }),
    {
        self.identifier = Option::Some(id);
    }

    /// Set the format.
    pub fn set_format(&mut self, format: String)
        ensures
            *final(self) == (EpubBuilder { format: Option::Some(format), ..*old(self) }),
    {
        self.format = Option::Some(format);
    }

    /// Set the publisher.
    pub fn set_publisher(&mut self, publisher: String)
        ensures
            *final(self) == (EpubBuilder { publisher: Option::Some(publisher), ..*old(self) }),
    {
        self.publisher = Option::Some(publisher);
    }

    /// Set the category.
    pub fn set_category(&mut self, category: String)
        ensures
            *final(self) == (EpubBuilder { category: Option::Some(category), ..*old(self) }),
    {
        self.category = Option::Some(category);
    }

    /// Set the date.
    pub fn set_date(&mut self, date: crate::datetime::EpubDateTime)
        ensures
            *final(self) == (EpubBuilder { date: Option::Some(date), ..*old(self) }),
    {
        self.date = Option::Some(date);
    }

    /// Set the description.
    pub fn set_description(&mut self, description: String)
        ensures
            *final(self) == (EpubBuilder { description: Option::Some(description), ..*old(self) }),
    {
        self.description = Option::Some(description);
    }

    /// Set the subject.
    pub fn set_subject(&mut self, subtitle: String)
        ensures
            *final(self) == (EpubBuilder { subject: Option::Some(subtitle), ..*old(self) }),
    {
        self.subject = Option::Some(subtitle);
    }

    /// Set the title.
    pub fn set_title(&mut self, title: String)
        ensures
            *final(self) == (EpubBuilder { title, ..*old(self) }),
    {
        self.title = title;
    }

    /// Set the source.
    pub fn set_source(&mut self, source: String)
        ensures
            *final(self) == (EpubBuilder { source: Option::Some(source), ..*old(self) }),
    {
        self.source = Option::Some(source);
    }

    /// Set the language.
    pub fn set_language(&mut self, language: String)
        ensures
            *final(self) == (EpubBuilder { language: Option::Some(language), ..*old(self) }),
    {
        self.language = Option::Some(language);
    }

    /// Set the relation.
    pub fn set_relation(&mut self, relation: String)
        ensures
            *final(self) == (EpubBuilder { relation: Option::Some(relation), ..*old(self) }),
    {
        self.relation = Option::Some(relation);
    }

    /// Set the rights.
    pub fn set_right(&mut self, rights: String)
        ensures
            *final(self) == (EpubBuilder { rights: Option::Some(rights), ..*old(self) }),
    {
        self.rights = Option::Some(rights);
    }

    /// Add a metadata key/value pair; an existing binding for the key is
    /// replaced.
    pub fn add_metadata(&mut self, key: String, value: String)
        ensures
            final(self).metadata matches Option::Some(m) && crate::entry_views(m@) == upsert_pairs(
                match old(self).metadata {
                    Option::Some(m0) => m0@,
                    Option::None => Seq::empty(),
                },
                key@,
                value@,
            ),
            *final(self) == (EpubBuilder { metadata: final(self).metadata, ..*old(self) }),
    {
        let taken = self.metadata.take();
        let pairs: Vec<(String, String)> = match taken {
            Option::Some(m) => m,
            Option::None => Vec::new(),
        };
        let ghost ps0 = pairs@;
        let mut out: Vec<(String, String)> = Vec::new();
        let mut found = false;
        let mut i: usize = 0;
        proof {
            assert(replace_pairs(ps0.subrange(0, 0), key@, value@) =~= Seq::<
                (Seq<char>, Seq<char>),
            >::empty());
            assert(crate::entry_views(out@) =~= Seq::<(Seq<char>, Seq<char>)>::empty());
        }
        while i < pairs.len()
            invariant
                i <= ps0.len(),
                pairs@ == ps0,
                crate::entry_views(out@) == replace_pairs(ps0.subrange(0, i as int), key@, value@),
                found <==> (exists|j: int| 0 <= j < i && #[trigger] ps0[j].0@ == key@),
            decreases ps0.len() - i,
        {
            let ghost pre = ps0.subrange(0, i as int);
            let ghost cur = ps0.subrange(0, i + 1 as int);
            proof {
                assert(cur.drop_last() =~= pre);
                assert(cur.last() == ps0[i as int]);
            }
            let ghost out0 = out@;
            if pairs[i].0.eq(&key) {
                out.push((key.clone(), value.clone()));
                found = true;
            } else {
                let k2 = pairs[i].0.clone();
                let v2 = pairs[i].1.clone();
                out.push((k2, v2));
            }
            proof {
                assert(crate::entry_views(out@) =~= crate::entry_views(out0).push(
                    (out@.last().0@, out@.last().1@),
                ));
                assert(crate::entry_views(out@) =~= replace_pairs(cur, key@, value@));
            }
            i = i + 1;
        }
        proof {
            assert(ps0.subrange(0, ps0.len() as int) =~= ps0);
            if found {
                let j = choose|j: int| 0 <= j < ps0.len() && #[trigger] ps0[j].0@ == key@;
                assert(crate::entry_keys(ps0)[j] == key@);
            } else {
                if crate::entry_keys(ps0).contains(key@) {
                    let j = choose|j: int|
                        0 <= j < crate::entry_keys(ps0).len() && crate::entry_keys(ps0)[j] == key@;
                    assert(ps0[j].0@ == key@);
                }
            }
        }
        if !found {
            let ghost out1 = out@;
            out.push((key, value));
            proof {
                assert(crate::entry_views(out@) =~= crate::entry_views(out1).push(
                    (out@.last().0@, out@.last().1@),
                ));
            }
        }
        self.metadata = Option::Some(out);
    }

    /// Add an image file.
    pub fn add_image(&mut self, source: SourceRef, internal_filename: Option<String>) -> (r:
        Result<String, Error>)
        requires
            old(self).images.entries@.len() < u64::MAX,
        ensures
            *final(self) == (EpubBuilder { images: final(self).images, ..*old(self) }),
            ({
                let keys = old(self).images.keys();
                let name = resolved_media_name(
                    keys,
                    match internal_filename {
                        Option::Some(n) => Option::Some(n@),
                        Option::None => Option::None,
                    },
                    source.location@,
                    "image"@,
                );
                let repeat = match internal_filename {
                    Option::Some(n) => crate::has_entry(
                        old(self).images.entries@,
                        n@,
                        source.location@,
                    ),
                    Option::None => false,
                };
                match r {
                    Result::Ok(path) => source.exists && path@ == "../"@ + "images"@ + "/"@
                        + name && (if repeat {
                        final(self).images == old(self).images
                    } else {
                        !keys.contains(name) && final(self).images.map_view() == old(
                            self,
                        ).images.map_view().push((name, source.location@))
                    }),
                    Result::Err(e) => final(self).images == old(self).images && (match e {
                        Error::FileNotFoundErr(_) => !source.exists,
                        Error::FilenameUsedErr(_) => source.exists && keys.contains(name)
                            && !repeat,
                        _ => false,
                    }),
                }
            }),
            old(self).wf() ==> final(self).wf(),
    {
        add_media(&source, internal_filename, "image", "images", &mut self.images)
    }

    /// Add a video file.
    pub fn add_video(&mut self, source: SourceRef, internal_filename: Option<String>) -> (r:
        Result<String, Error>)
        requires
            old(self).videos.entries@.len() < u64::MAX,
        ensures
            *final(self) == (EpubBuilder { videos: final(self).videos, ..*old(self) }),
            ({
                let keys = old(self).videos.keys();
                let name = resolved_media_name(
                    keys,
                    match internal_filename {
                        Option::Some(n) => Option::Some(n@),
                        Option::None => Option::None,
                    },
                    source.location@,
                    "video"@,
                );
                let repeat = match internal_filename {
                    Option::Some(n) => crate::has_entry(
                        old(self).videos.entries@,
                        n@,
                        source.location@,
                    ),
                    Option::None => false,
                };
                match r {
                    Result::Ok(path) => source.exists && path@ == "../"@ + "videos"@ + "/"@
                        + name && (if repeat {
                        final(self).videos == old(self).videos
                    } else {
                        !keys.contains(name) && final(self).videos.map_view() == old(
                            self,
                        ).videos.map_view().push((name, source.location@))
                    }),
                    Result::Err(e) => final(self).videos == old(self).videos && (match e {
                        Error::FileNotFoundErr(_) => !source.exists,
                        Error::FilenameUsedErr(_) => source.exists && keys.contains(name)
                            && !repeat,
                        _ => false,
                    }),
                }
            }),
            old(self).wf() ==> final(self).wf(),
    {
        add_media(&source, internal_filename, "video", "videos", &mut self.videos)
    }

    /// Add an audio file.
    pub fn add_audio(&mut self, source: SourceRef, internal_filename: Option<String>) -> (r:
        Result<String, Error>)
        requires
            old(self).audios.entries@.len() < u64::MAX,
        ensures
            *final(self) == (EpubBuilder { audios: final(self).audios, ..*old(self) }),
            ({
                let keys = old(self).audios.keys();
                let name = resolved_media_name(
                    keys,
                    match internal_filename {
                        Option::Some(n) => Option::Some(n@),
                        Option::None => Option::None,
                    },
                    source.location@,
                    "audio"@,
                );
                let repeat = match internal_filename {
                    Option::Some(n) => crate::has_entry(
                        old(self).audios.entries@,
                        n@,
                        source.location@,
                    ),
                    Option::None => false,
                };
                match r {
                    Result::Ok(path) => source.exists && path@ == "../"@ + "audios"@ + "/"@
                        + name && (if repeat {
                        final(self).audios == old(self).audios
                    } else {
                        !keys.contains(name) && final(self).audios.map_view() == old(
                            self,
                        ).audios.map_view().push((name, source.location@))
                    }),
                    Result::Err(e) => final(self).audios == old(self).audios && (match e {
                        Error::FileNotFoundErr(_) => !source.exists,
                        Error::FilenameUsedErr(_) => source.exists && keys.contains(name)
                            && !repeat,
                        _ => false,
                    }),
                }
            }),
            old(self).wf() ==> final(self).wf(),
    {
        add_media(&source, internal_filename, "audio", "audios", &mut self.audios)
    }

    /// Add a stylesheet file.
    pub fn add_stylesheet(&mut self, source: SourceRef, internal_filename: Option<String>) -> (r:
        Result<String, Error>)
        requires
            old(self).stylesheet.entries@.len() < u64::MAX,
        ensures
            *final(self) == (EpubBuilder { stylesheet: final(self).stylesheet, ..*old(self) }),
            ({
                let keys = old(self).stylesheet.keys();
                let name = resolved_media_name(
                    keys,
                    match internal_filename {
                        Option::Some(n) => Option::Some(n@),
                        Option::None => Option::None,
                    },
                    source.location@,
                    "style"@,
                );
                let repeat = match internal_filename {
                    Option::Some(n) => crate::has_entry(
                        old(self).stylesheet.entries@,
                        n@,
                        source.location@,
                    ),
                    Option::None => false,
                };
                match r {
                    Result::Ok(path) => source.exists && path@ == "../"@ + "css"@ + "/"@
                        + name && (if repeat {
                        final(self).stylesheet == old(self).stylesheet
                    } else {
                        !keys.contains(name) && final(self).stylesheet.map_view() == old(
                            self,
                        ).stylesheet.map_view().push((name, source.location@))
                    }),
                    Result::Err(e) => final(self).stylesheet == old(self).stylesheet && (match e {
                        Error::FileNotFoundErr(_) => !source.exists,
                        Error::FilenameUsedErr(_) => source.exists && keys.contains(name)
                            && !repeat,
                        _ => false,
                    }),
                }
            }),
            old(self).wf() ==> final(self).wf(),
    {
        add_media(&source, internal_filename, "style", "css", &mut self.stylesheet)
    }

    /// Add a font file.
    pub fn add_font(&mut self, source: SourceRef, internal_filename: Option<String>) -> (r:
        Result<String, Error>)
        requires
            old(self).fonts.entries@.len() < u64::MAX,
        ensures
            *final(self) == (EpubBuilder { fonts: final(self).fonts, ..*old(self) }),
            ({
                let keys = old(self).fonts.keys();
                let name = resolved_media_name(
                    keys,
                    match internal_filename {
                        Option::Some(n) => Option::Some(n@),
                        Option::None => Option::None,
                    },
                    source.location@,
                    "font"@,
                );
                let repeat = match internal_filename {
                    Option::Some(n) => crate::has_entry(
                        old(self).fonts.entries@,
                        n@,
                        source.location@,
                    ),
                    Option::None => false,
                };
                match r {
                    Result::Ok(path) => source.exists && path@ == "../"@ + "fonts"@ + "/"@
                        + name && (if repeat {
                        final(self).fonts == old(self).fonts
                    } else {
                        !keys.contains(name) && final(self).fonts.map_view() == old(
                            self,
                        ).fonts.map_view().push((name, source.location@))
                    }),
                    Result::Err(e) => final(self).fonts == old(self).fonts && (match e {
                        Error::FileNotFoundErr(_) => !source.exists,
                        Error::FilenameUsedErr(_) => source.exists && keys.contains(name)
                            && !repeat,
                        _ => false,
                    }),
                }
            }),
            old(self).wf() ==> final(self).wf(),
    {
        add_media(&source, internal_filename, "font", "fonts", &mut self.fonts)
    }

    /// Add a root-level section.
    pub fn add_section(
        &mut self,
        body: String,
        section_title: String,
        internal_filename: Option<String>,
        internal_css_path: Option<SourceRef>,
    ) -> (r: Result<String, Error>)
        requires
            old(self).wf(),
            old(self).stylesheet.entries@.len() < u64::MAX,
            2 * old(self).filenames@.len() + 2 <= usize::MAX,
        ensures
            add_sub_section_post(
                *old(self),
                *final(self),
                Option::None,
                body@,
                section_title@,
                match internal_filename {
                    Option::Some(f) => Option::Some(f@),
                    Option::None => Option::None,
                },
                internal_css_path,
                r,
            ),
            final(self).wf(),
    {
        self.add_sub_section(
            Option::None,
            body,
            section_title,
            internal_filename,
            internal_css_path,
        )
    }

    /// Add a section, attached under the parent when a non-empty parent
    /// filename is given.  The filename is the explicit one (given the
    /// fixed extension) or the first free automatically numbered one;
    /// filenames stay globally unique and existing siblings keep their
    /// order.  An unknown parent, a duplicate explicit filename, or a
    /// failing stylesheet registration is an error that leaves the
    /// builder untouched.
    pub fn add_sub_section(
        &mut self,
        parent_filename: Option<String>,
        body: String,
        section_title: String,
        internal_filename: Option<String>,
        internal_css_path: Option<SourceRef>,
    ) -> (r: Result<String, Error>)
        requires
            old(self).wf(),
            old(self).stylesheet.entries@.len() < u64::MAX,
            2 * old(self).filenames@.len() + 2 <= usize::MAX,
        ensures
            add_sub_section_post(
                *old(self),
                *final(self),
                parent_filename,
                body@,
                section_title@,
                match internal_filename {
                    Option::Some(f) => Option::Some(f@),
                    Option::None => Option::None,
                },
                internal_css_path,
                r,
            ),
            final(self).wf(),
    {
        let ghost names0 = views_of(self.filenames@);
        let ghost styles0 = self.stylesheet;
        let ghost title_v = section_title@;
        let ghost body_v = body@;
        // 1. resolve the filename
        let filename: String = match internal_filename {
            Option::Some(fname) => {
                let base = crate::strutil::base_name(fname.as_str());
                let xhtml_str = String::from_str("xhtml");
                let has_ext = match crate::strutil::extension_of(base.as_str()) {
                    Option::Some(e) => e.eq(&xhtml_str),
                    Option::None => false,
                };
                let resolved = if has_ext {
                    fname
                } else {
                    let mut f2 = fname;
                    f2.append(".xhtml");
                    f2
                };
                proof {
                    reveal_strlit("xhtml");
                }
                if crate::strutil::names_contain(&self.filenames, &resolved) {
                    let mut msg = String::from_str("file already exists:");
                    msg.append(resolved.as_str());
                    proof {
                        lemma_contains_views(self.filenames@, resolved@);
                    }
                    return Result::Err(Error::FilenameExistedErr(msg));
                }
                proof {
                    lemma_contains_views(self.filenames@, resolved@);
                }
                resolved
            },
            Option::None => {
                let n = self.filenames.len();
                let mut idx: usize = n;
                let mut candidate = make_section_name((idx + 1) as u64);
                proof {
                    lemma_contains_views(self.filenames@, candidate@);
                }
                while crate::strutil::names_contain(&self.filenames, &candidate)
                    invariant
                        self.filenames@.len() == n,
                        names0 == views_of(self.filenames@),
                        n <= idx,
                        idx <= 2 * n,
                        candidate@ == section_auto_name((idx + 1) as nat),
                        2 * n + 2 <= usize::MAX,
                        forall|t: int|
                            n + 1 <= t <= idx ==> names0.contains(
                                #[trigger] section_auto_name(t as nat),
                            ),
                    decreases 2 * n - idx,
                {
                    proof {
                        lemma_contains_views(self.filenames@, candidate@);
                        assert(names0.contains(section_auto_name((idx + 1) as nat)));
                        lemma_candidates_bound(names0, n + 1, idx + 1 - n);
                    }
                    idx = idx + 1;
                    candidate = make_section_name((idx + 1) as u64);
                    proof {
                        lemma_contains_views(self.filenames@, candidate@);
                    }
                }
                proof {
                    lemma_contains_views(self.filenames@, candidate@);
                    assert(is_first_free_auto(names0, candidate@)) by {
                        let j = idx + 1 as int;
                        assert(candidate@ == section_auto_name(j as nat));
                        assert(!names0.contains(section_auto_name(j as nat)));
                        assert(forall|t: int|
                            names0.len() + 1 <= t < j ==> names0.contains(
                                #[trigger] section_auto_name(t as nat),
                            ));
                    }
                }
                candidate
            },
        };
        // 2. parent must already be registered
        let mut parent_eff: Option<String> = Option::None;
        match parent_filename {
            Option::Some(p) => {
                if p.as_str().unicode_len() != 0 {
                    if !crate::strutil::names_contain(&self.filenames, &p) {
                        proof {
                            lemma_contains_views(self.filenames@, p@);
                        }
                        let mut msg = String::from_str("Parent file already exists:");
                        msg.append(p.as_str());
                        return Result::Err(Error::ParentExistedErr(msg));
                    }
                    proof {
                        lemma_contains_views(self.filenames@, p@);
                    }
                    parent_eff = Option::Some(p);
                }
            },
            Option::None => (),
        }
        // 3. register the stylesheet, when one is given
        let mut css_link: Option<String> = Option::None;
        match internal_css_path {
            Option::Some(src) => {
                match self.add_stylesheet(src, Option::None) {
                    Result::Ok(path) => {
                        css_link = Option::Some(path);
                    },
                    Result::Err(e) => {
                        return Result::Err(e);
                    },
                }
            },
            Option::None => (),
        }
        // 4. construct the node and place it
        let mut section = Section::new(filename.clone());
        section.title = section_title.clone();
        section.xhtml.set_body(body);
        section.xhtml.set_title(section_title);
        match &css_link {
            Option::Some(path) => {
                let link = XHtmlLinkItem::new(
                    path.clone(),
                    String::from_str("text/css"),
                    Option::None,
                );
                section.xhtml.add_link(link);
            },
            Option::None => (),
        }
        let ghost new_model = section.model();
        let ghost href_v = (match css_link {
            Option::Some(p) => Option::Some(p@),
            Option::None => Option::<Seq<char>>::None,
        });
        proof {
            assert(section.xhtml.head.link@.map_values(
                |l: XHtmlLinkItem| crate::xhtml::link_model(l),
            ) =~= new_model.xhtml.links);
            assert(new_model.xhtml.links =~= new_section_model(
                filename@,
                title_v,
                body_v,
                href_v,
            ).xhtml.links);
            assert(new_model.xhtml.styles =~= Seq::<crate::xhtml::StyleModel>::empty());
            assert(new_model.xhtml =~= new_section_model(filename@, title_v, body_v, href_v).xhtml);
            assert(new_model =~= new_section_model(filename@, title_v, body_v, href_v));
            assert(names_of(new_model) =~= seq![filename@]);
        }
        let ghost ms_old = sec_models(self.sections@);
        match parent_eff {
            Option::None => {
                proof {
                    lemma_sec_models_push(self.sections@, section);
                    lemma_forest_names_push(ms_old, new_model);
                }
                self.sections.push(section);
            },
            Option::Some(p) => {
                proof {
                    assert(forest_names(ms_old).contains(p@)) by {
                        assert(names0.to_multiset().count(p@) > 0);
                        assert(forest_names(ms_old).to_multiset().count(p@) > 0);
                    }
                }
                let rest = attach_in_forest(&mut self.sections, &p, section);
                match rest {
                    Option::None => (),
                    Option::Some(_) => {
                        // the parent was checked present, so this is unreachable
                        proof {
                            assert(false);
                        }
                        return Result::Err(Error::ParentExistedErr(String::new()));
                    },
                }
            },
        }
        // 5. register the filename
        let ghost fnames_before = self.filenames@;
        self.filenames.push(filename.clone());
        proof {
            assert(views_of(self.filenames@) =~= views_of(fnames_before).push(filename@));
            assert(views_of(self.filenames@).no_duplicates()) by {
                let nv = views_of(self.filenames@);
                assert(forall|j: int| 0 <= j < names0.len() ==> nv[j] == names0[j]);
                assert(nv[names0.len() as int] == filename@);
                assert forall|a: int, b: int|
                    0 <= a < nv.len() && 0 <= b < nv.len() && a != b implies nv[a] != nv[b] by {
                    if a < names0.len() && b < names0.len() {
                    } else if a < names0.len() {
                        assert(!names0.contains(filename@));
                        if nv[a] == filename@ {
                            assert(names0[a] == filename@);
                        }
                    } else if b < names0.len() {
                        if nv[b] == filename@ {
                            assert(names0[b] == filename@);
                        }
                    }
                }
            }
            assert(names_of(new_model).to_multiset() =~= Multiset::empty().insert(filename@));
            assert(forest_names(sec_models(self.sections@)).to_multiset() =~= views_of(
                self.filenames@,
            ).to_multiset());
            assert(forest_names(sec_models(self.sections@)).no_duplicates()) by {
                views_of(self.filenames@).lemma_multiset_has_no_duplicates();
                forest_names(sec_models(self.sections@)).lemma_multiset_has_no_duplicates_conv();
            }
        }
        Result::Ok(filename)
    }

    /// Install a new cover: validate the image source, tear down any
    /// previous cover, register the image, and create a root-level
    /// content node that shows it.  The teardown is not transactional
    /// with the installation: a late failure leaves the builder with no
    /// cover.
    pub fn set_cover(
        &mut self,
        internal_image_path: SourceRef,
        internal_css_path: Option<SourceRef>,
        media_type_known: bool,
    ) -> (r: Result<String, Error>)
        requires
            old(self).wf(),
            old(self).images.entries@.len() < u64::MAX,
            old(self).stylesheet.entries@.len() < u64::MAX,
            2 * old(self).filenames@.len() + 2 <= usize::MAX,
        ensures
            final(self).wf(),
            !internal_image_path.exists ==> (r matches Result::Err(Error::FileNotFoundErr(_))
                && *final(self) == *old(self)),
            internal_image_path.exists && !media_type_known ==> (r matches Result::Err(
                Error::MediaError(_),
            ) && *final(self) == *old(self)),
            internal_image_path.exists && media_type_known ==> set_cover_steps(
                *old(self),
                *final(self),
                internal_image_path,
                internal_css_path,
                r,
            ),
            r matches Result::Ok(name) ==> final(self).cover matches Option::Some(c)
                && c.xhtml_filename@ == name@ && views_of(final(self).filenames@).contains(name@)
                && forest_names(sec_models(final(self).sections@)).to_multiset().count(name@) == 1,
    {
        let ghost old_b = *self;
        if !internal_image_path.exists {
            let mut msg = String::from_str("file not found:");
            msg.append(internal_image_path.location.as_str());
            return Result::Err(Error::FileNotFoundErr(msg));
        }
        if !media_type_known {
            let mut msg = String::from_str("file mime err:");
            msg.append(internal_image_path.location.as_str());
            return Result::Err(Error::MediaError(msg));
        }
        let loc = internal_image_path.location.clone();
        let ghost img0 = internal_image_path;
        let ghost css0 = internal_css_path;
        let css_given = internal_css_path.is_some();
        // tear down the previous cover
        let cleared = self.remove_cover_resources();
        match cleared {
            Result::Ok(_) => (),
            Result::Err(e) => {
                proof {
                    assert(false);
                }
                return Result::Err(e);
            },
        }
        let ghost mid = *self;
        proof {
            assert(self.images.entries@.len() < u64::MAX) by {
                if old_b.cover is Some && old_b.cover->Some_0.filename@.len() > 0 {
                    lemma_remove_key_len(
                        old_b.images.entries@,
                        old_b.cover->Some_0.image_filename@,
                    );
                }
            }
        }
        let ghost img_name = auto_media_name(mid.images.keys(), img0.location@, "image"@);
        // register the new cover image
        let image_path = match self.add_image(internal_image_path, Option::None) {
            Result::Ok(p) => p,
            Result::Err(e) => {
                proof {
                    assert(cover_cleared(old_b, mid));
                    assert(*self == mid);
                    assert(mid.images.keys().contains(img_name));
                    assert(set_cover_after_clear(
                        mid,
                        *self,
                        img0,
                        css0,
                        Result::Err(e),
                    ));
                    assert(set_cover_steps(old_b, *self, img0, css0, Result::Err(e)));
                }
                return Result::Err(e);
            },
        };
        let ghost mid2 = *self;
        proof {
            assert(crate::entry_views(self.images.entries@).len() == self.images.entries@.len());
            assert(self.images.entries@.len() > 0) by {
                assert(self.images.map_view().len() == mid.images.map_view().len() + 1);
            }
        }
        let image_name = self.images.entries[self.images.entries.len() - 1].0.clone();
        proof {
            assert(image_name@ == img_name) by {
                let es = self.images.entries@;
                assert(crate::entry_views(es)[es.len() - 1] == (es[es.len() - 1].0@, es[es.len()
                    - 1].1@));
                assert(crate::entry_views(es)[es.len() - 1].0 == img_name);
            }
        }
        // create the content node showing the image
        let mut body = String::from_str("<img src=\"");
        body.append(image_path.as_str());
        body.append("\" alt=\"cover\"/>");
        proof {
            assert(self.stylesheet.entries@.len() < u64::MAX) by {
                if old_b.cover is Some && old_b.cover->Some_0.filename@.len() > 0 {
                    match old_b.cover->Some_0.css_filename {
                        Option::Some(css) => {
                            lemma_remove_key_len(old_b.stylesheet.entries@, css@);
                        },
                        Option::None => (),
                    }
                }
            }
            assert(self.filenames@.len() <= old_b.filenames@.len()) by {
                assert(views_of(self.filenames@).len() == self.filenames@.len());
                assert(views_of(old_b.filenames@).len() == old_b.filenames@.len());
                match old_b.cover {
                    Option::None => {},
                    Option::Some(c) => {
                        if c.filename@.len() == 0 {
                        } else if forest_names(sec_models(old_b.sections@)).contains(
                            c.xhtml_filename@,
                        ) {
                            let removed = choose|removed: SectionModel|
                                removed.filename == c.xhtml_filename@ && sec_models(mid.sections@)
                                    == remove_forest(
                                    sec_models(old_b.sections@),
                                    c.xhtml_filename@,
                                ) && forest_names(
                                    sec_models(old_b.sections@),
                                ).to_multiset() == forest_names(
                                    sec_models(mid.sections@),
                                ).to_multiset().add(#[trigger] names_of(removed).to_multiset())
                                    && views_of(old_b.filenames@).to_multiset() == views_of(
                                    mid.filenames@,
                                ).to_multiset().add(names_of(removed).to_multiset());
                            assert(views_of(old_b.filenames@).to_multiset().len() == views_of(
                                mid.filenames@,
                            ).to_multiset().len() + names_of(removed).to_multiset().len());
                        } else {
                        }
                    },
                }
            }
        }
        let title = String::from_str("\u{5c01}\u{9762}");
        let explicit = String::from_str("cover.xhtml");
        let section_r = self.add_sub_section(
            Option::None,
            body,
            title,
            Option::Some(explicit),
            internal_css_path,
        );
        let cover_xhtml_filename = match section_r {
            Result::Ok(f) => f,
            Result::Err(e) => {
                proof {
                    assert(set_cover_add_section(
                        mid2,
                        *self,
                        img0,
                        img_name,
                        css0,
                        Result::Err(e),
                    ));
                    assert(mid2.images.map_view() == mid.images.map_view().push(
                        (img_name, img0.location@),
                    ));
                    assert(set_cover_after_clear(
                        mid,
                        *self,
                        img0,
                        css0,
                        Result::Err(e),
                    ));
                    assert(set_cover_steps(old_b, *self, img0, css0, Result::Err(e)));
                }
                return Result::Err(e);
            },
        };
        let ghost mid3 = *self;
        // record the new cover
        proof {
            assert(crate::entry_views(self.stylesheet.entries@).len()
                == self.stylesheet.entries@.len());
            if css_given {
                assert(self.stylesheet.entries@.len() > 0) by {
                    assert(self.stylesheet.map_view().len() == mid2.stylesheet.map_view().len()
                        + 1);
                }
            }
        }
        let css_filename: Option<String> = if css_given {
            Option::Some(self.stylesheet.entries[self.stylesheet.entries.len() - 1].0.clone())
        } else {
            Option::None
        };
        proof {
            match css0 {
                Option::Some(src) => {
                    assert(css_filename matches Option::Some(cs) && cs@ == css_auto_name(
                        mid2.stylesheet.keys(),
                        src.location@,
                    )) by {
                        let es = self.stylesheet.entries@;
                        assert(crate::entry_views(es)[es.len() - 1] == (es[es.len() - 1].0@,
                            es[es.len() - 1].1@));
                        assert(crate::entry_views(es) == mid2.stylesheet.map_view().push(
                            (css_auto_name(mid2.stylesheet.keys(), src.location@), src.location@),
                        ));
                    }
                },
                Option::None => {
                    assert(css_filename is None);
                },
            }
        }
        let display = crate::strutil::base_name(loc.as_str());
        self.cover = Option::Some(
            Cover {
                filename: display,
                css_filename,
                image_filename: image_name,
                xhtml_filename: cover_xhtml_filename.clone(),
            },
        );
        proof {
            assert(*self == (EpubBuilder { cover: self.cover, ..mid3 }));
            assert(add_sub_section_post(
                mid2,
                mid3,
                Option::None,
                ("<img src=\""@ + ("../"@ + "images"@ + "/"@ + img_name)
                    + "\" alt=\"cover\"/>"@),
                "\u{5c01}\u{9762}"@,
                Option::Some("cover.xhtml"@),
                css0,
                Result::Ok(cover_xhtml_filename),
            ));
            assert(set_cover_add_section(
                mid2,
                *self,
                img0,
                img_name,
                css0,
                Result::Ok(cover_xhtml_filename),
            ));
            assert(mid2.images.map_view() == mid.images.map_view().push(
                (img_name, img0.location@),
            ));
            assert(set_cover_after_clear(
                mid,
                *self,
                img0,
                css0,
                Result::Ok(cover_xhtml_filename),
            ));
            assert(set_cover_steps(
                old_b,
                *self,
                img0,
                css0,
                Result::Ok(cover_xhtml_filename),
            ));
            // exactly one cover-content node remains
            assert(views_of(self.filenames@).contains(cover_xhtml_filename@)) by {
                assert(views_of(self.filenames@) == views_of(mid2.filenames@).push(
                    cover_xhtml_filename@,
                ));
                assert(views_of(self.filenames@)[views_of(self.filenames@).len() - 1]
                    == cover_xhtml_filename@);
            }
            assert(forest_names(sec_models(self.sections@)).to_multiset().count(
                cover_xhtml_filename@,
            ) == 1) by {
                views_of(self.filenames@).lemma_multiset_has_no_duplicates();
                assert(views_of(self.filenames@).to_multiset().contains(cover_xhtml_filename@));
                assert(forest_names(sec_models(self.sections@)).to_multiset() == views_of(
                    self.filenames@,
                ).to_multiset());
            }
        }
        Result::Ok(cover_xhtml_filename)
    }

    /// Project one content node into a navigation node at the given
    /// structural level.
    pub fn convert_section(section: &Section, level: i32) -> (r: TocElement)
        ensures
            r.model() == toc_from_section(section.model(), level as int),
        decreases *section,
    {
        let mut url = String::from_str("xhtml");
        url.append("/");
        url.append(section.filename.as_str());
        let ghost cs0 = section.childs@;
        let ghost ms = sec_models(cs0);
        let next = if level < i32::MAX {
            level + 1
        } else {
            level
        };
        let mut childs: Vec<TocElement> = Vec::new();
        let mut i: usize = 0;
        proof {
            lemma_sec_models_index(cs0);
            lemma_toc_from_sections_index(ms, next as int);
            assert(toc_models(childs@) =~= Seq::<TocElemModel>::empty());
            assert(toc_from_sections(ms.subrange(0, 0), next as int) =~= Seq::<
                TocElemModel,
            >::empty());
        }
        while i < section.childs.len()
            invariant
                i <= cs0.len(),
                section.childs@ == cs0,
                ms == sec_models(cs0),
                ms.len() == cs0.len(),
                next as int == next_level(level as int),
                forall|j: int| 0 <= j < cs0.len() ==> ms[j] == cs0[j].model(),
                toc_models(childs@) == toc_from_sections(ms.subrange(0, i as int), next as int),
            decreases cs0.len() - i,
        {
            let ghost pre = ms.subrange(0, i as int);
            let ghost cur = ms.subrange(0, i + 1 as int);
            proof {
                assert(cur.drop_last() =~= pre);
                assert(cur.last() == ms[i as int]);
            }
            let c = Self::convert_section(&section.childs[i], next);
            proof {
                crate::toc::lemma_toc_models_push(childs@, c);
            }
            childs.push(c);
            i = i + 1;
        }
        proof {
            assert(ms.subrange(0, ms.len() as int) =~= ms);
        }
        let r = TocElement { level, url, title: section.title.clone(), childs };
        proof {
            assert(r.model() =~= toc_from_section(section.model(), level as int));
        }
        r
    }

    /// Render the navigation document for the section forest in the
    /// builder's dialect: the forest is projected node by node, the
    /// header carries the identifier and the observed depth, and a forest
    /// whose node count cannot be numbered is refused.
    pub fn encode_toc_xml(&self) -> (r: Result<String, Error>)
        ensures
            ({
                let elems = toc_from_sections(sec_models(self.sections@), 0);
                let lang = match self.language {
                    Option::Some(l) => l@,
                    Option::None => "zh-CN"@,
                };
                match r {
                    Result::Ok(s) => count_list(elems) <= u64::MAX && s@ == (match self.version {
                        EpubVersion::V20 => crate::toc::ncx_file_view_spec(
                            self.title@,
                            lang,
                            toc_meta_views(*self, toc_depth_val(elems)),
                            elems,
                        ),
                        EpubVersion::V30 => crate::toc::nav_file_view_spec(
                            self.title@,
                            toc_meta_views(*self, toc_depth_val(elems)),
                            elems,
                        ),
                    }),
                    Result::Err(e) => count_list(elems) > u64::MAX && e is NonEncodable,
                }
            }),
    {
        let ghost ms = sec_models(self.sections@);
        let ghost elems = toc_from_sections(ms, 0);
        let lang = match &self.language {
            Option::Some(l) => l.clone(),
            Option::None => String::from_str("zh-CN"),
        };
        let mut toc = TocNav::new(self.title.clone(), lang);
        let uid = match &self.identifier {
            Option::Some(id) => id.clone(),
            Option::None => String::new(),
        };
        toc.add_metadata(String::from_str("dtb:uid"), uid);
        toc.add_metadata(String::from_str("dtb:totalPageCount"), String::from_str("0"));
        toc.add_metadata(String::from_str("dtb:maxPageNumber"), String::from_str("0"));
        let mut i: usize = 0;
        proof {
            lemma_sec_models_index(self.sections@);
            lemma_toc_from_sections_index(ms, 0);
            assert(toc_models(toc.elements@) =~= Seq::<TocElemModel>::empty());
            assert(toc_from_sections(ms.subrange(0, 0), 0) =~= Seq::<TocElemModel>::empty());
        }
        while i < self.sections.len()
            invariant
                i <= self.sections@.len(),
                ms == sec_models(self.sections@),
                ms.len() == self.sections@.len(),
                forall|j: int| 0 <= j < ms.len() ==> ms[j] == self.sections@[j].model(),
                toc_models(toc.elements@) == toc_from_sections(ms.subrange(0, i as int), 0),
                toc.title@ == self.title@,
                toc.lang@ == (match self.language {
                    Option::Some(l) => l@,
                    Option::None => "zh-CN"@,
                }),
                crate::toc::pair_views(toc.metadata@) =~= toc_meta_views(
                    *self,
                    toc_depth_val(elems),
                ).subrange(0, 3),
            decreases self.sections@.len() - i,
        {
            let ghost pre = ms.subrange(0, i as int);
            let ghost cur = ms.subrange(0, i + 1 as int);
            proof {
                assert(cur.drop_last() =~= pre);
                assert(cur.last() == ms[i as int]);
            }
            let el = Self::convert_section(&self.sections[i], 0);
            proof {
                crate::toc::lemma_toc_models_push(toc.elements@, el);
            }
            toc.add_element(el);
            i = i + 1;
        }
        proof {
            assert(ms.subrange(0, ms.len() as int) =~= ms);
            assert(toc_models(toc.elements@) == elems);
        }
        match crate::toc::count_forest_checked(&toc.elements) {
            Option::None => Result::Err(
                Error::NonEncodable(
                    String::from_str("navigation tree is too large to number"),
                ),
            ),
            Option::Some(_) => {
                proof {
                    crate::toc::lemma_depth_le_count_list(elems);
                }
                let depth = if toc.elements.len() == 0 {
                    1u64
                } else {
                    crate::toc::forest_depth_u64(&toc.elements)
                };
                let depth_str = u64_to_dec(depth);
                let ghost ds = depth_str@;
                let ghost meta_before = toc.metadata@;
                proof {
                    assert(depth as nat == toc_depth_val(elems));
                    assert(ds == dec_spec(toc_depth_val(elems)));
                }
                toc.add_metadata(String::from_str("dtb:depth"), depth_str);
                proof {
                    assert(crate::toc::pair_views(toc.metadata@) =~= crate::toc::pair_views(
                        meta_before,
                    ).push(("dtb:depth"@, ds)));
                    assert(toc_meta_views(*self, toc_depth_val(elems)).subrange(0, 3).push(
                        ("dtb:depth"@, dec_spec(toc_depth_val(elems))),
                    ) =~= toc_meta_views(*self, toc_depth_val(elems)));
                    assert(crate::toc::pair_views(toc.metadata@) =~= toc_meta_views(
                        *self,
                        toc_depth_val(elems),
                    ));
                }
                toc.encode_file(self.version)
            },
        }
    }

    /// Tear down the previous cover's resources: its content node (with
    /// its subtree), the registered filenames, the cover stylesheet and
    /// the cover image.  Nothing happens when no cover is active.
    fn remove_cover_resources(&mut self) -> (r: Result<(), Error>)
        requires
            old(self).wf(),
        ensures
            r is Ok,
            cover_cleared(*old(self), *final(self)),
            final(self).wf(),
    {
        let ghost old_b = *self;
        let mut xf = String::new();
        let mut cssf: Option<String> = Option::None;
        let mut imgf = String::new();
        let mut active = false;
        match &self.cover {
            Option::None => (),
            Option::Some(c) => {
                if c.filename.as_str().unicode_len() != 0 {
                    active = true;
                    xf = c.xhtml_filename.clone();
                    cssf = match &c.css_filename {
                        Option::Some(s) => Option::Some(s.clone()),
                        Option::None => Option::None,
                    };
                    imgf = c.image_filename.clone();
                }
            },
        }
        if !active {
            return Result::Ok(());
        }
        let ghost xf0 = xf@;
        // detach the cover's content node
        let removed = remove_from_forest(&mut self.sections, &xf);
        match removed {
            Option::Some(sec) => {
                let names = collect_names(&sec);
                let ghost removed_m = sec.model();
                let ghost nsv = views_of(names@);
                let ghost f0 = views_of(old_b.filenames@);
                proof {
                    assert(nsv == names_of(removed_m));
                    // the removed names occur exactly once in the registry
                    forest_names(sec_models(old_b.sections@)).lemma_multiset_has_no_duplicates();
                    assert(nsv.no_duplicates()) by {
                        assert forall|x: Seq<char>|
                            nsv.to_multiset().contains(x) implies nsv.to_multiset().count(x)
                            == 1 by {
                            assert(forest_names(sec_models(old_b.sections@)).to_multiset().count(x)
                                == forest_names(
                                sec_models(self.sections@),
                            ).to_multiset().count(x) + nsv.to_multiset().count(x));
                            assert(forest_names(
                                sec_models(old_b.sections@),
                            ).to_multiset().contains(x));
                        }
                        nsv.lemma_multiset_has_no_duplicates_conv();
                    }
                    nsv.lemma_multiset_has_no_duplicates();
                    assert(nsv.subrange(0, 0) =~= Seq::<Seq<char>>::empty());
                    assert(f0.to_multiset() == views_of(self.filenames@).to_multiset().add(
                        nsv.subrange(0, 0).to_multiset(),
                    )) by {
                        assert(nsv.subrange(0, 0).to_multiset() =~= Multiset::<Seq<char>>::empty());
                        assert(views_of(self.filenames@).to_multiset().add(
                            Multiset::<Seq<char>>::empty(),
                        ) =~= views_of(self.filenames@).to_multiset());
                    }
                }
                let mut j: usize = 0;
                while j < names.len()
                    invariant
                        j <= nsv.len(),
                        nsv == views_of(names@),
                        nsv.no_duplicates(),
                        forall|x: Seq<char>|
                            nsv.to_multiset().contains(x) ==> nsv.to_multiset().count(x) == 1,
                        f0.to_multiset() == views_of(self.filenames@).to_multiset().add(
                            nsv.subrange(0, j as int).to_multiset(),
                        ),
                        forall|x: Seq<char>|
                            f0.to_multiset().contains(x) ==> f0.to_multiset().count(x) == 1,
                        views_of(self.filenames@).no_duplicates(),
                        f0 == views_of(old_b.filenames@),
                        *self == (EpubBuilder {
                            sections: self.sections,
                            filenames: self.filenames,
                            ..old_b
                        }),
                        sec_models(self.sections@) == remove_forest(
                            sec_models(old_b.sections@),
                            xf0,
                        ),
                        forest_names(sec_models(old_b.sections@)).to_multiset() == forest_names(
                            sec_models(self.sections@),
                        ).to_multiset().add(nsv.to_multiset()),
                        old_b.wf(),
                    decreases nsv.len() - j,
                {
                    let ghost cur_f = views_of(self.filenames@);
                    let ghost x = nsv[j as int];
                    proof {
                        // the name is still present exactly once
                        assert(nsv.subrange(0, j as int).to_multiset().count(x) == 0) by {
                            if nsv.subrange(0, j as int).to_multiset().count(x) > 0 {
                                assert(nsv.subrange(0, j as int).to_multiset().contains(x));
                                assert(nsv.subrange(0, j as int).contains(x));
                                let m = choose|m: int|
                                    0 <= m < j && nsv.subrange(0, j as int)[m] == x;
                                assert(nsv[m] == nsv[j as int]);
                            }
                        }
                        assert(nsv.to_multiset().count(x) >= 1) by {
                            assert(nsv.contains(x));
                        }
                        assert(f0.to_multiset().count(x) >= 1) by {
                            assert(forest_names(sec_models(old_b.sections@)).to_multiset().count(x)
                                >= nsv.to_multiset().count(x)) by {
                                assert(forest_names(
                                    sec_models(old_b.sections@),
                                ).to_multiset().count(x) == forest_names(
                                    sec_models(self.sections@),
                                ).to_multiset().count(x) + nsv.to_multiset().count(x));
                            }
                            assert(f0.to_multiset() == forest_names(
                                sec_models(old_b.sections@),
                            ).to_multiset());
                        }
                        assert(cur_f.to_multiset().count(x) >= 1);
                        assert(cur_f.contains(x));
                        lemma_remove_str_multiset(self.filenames@, x);
                    }
                    remove_filename(&mut self.filenames, &names[j]);
                    proof {
                        assert(nsv.subrange(0, j + 1 as int) =~= nsv.subrange(0, j as int).push(
                            x,
                        ));
                        assert(f0.to_multiset() =~= views_of(self.filenames@).to_multiset().add(
                            nsv.subrange(0, j + 1 as int).to_multiset(),
                        ));
                    }
                    j = j + 1;
                }
                proof {
                    assert(nsv.subrange(0, nsv.len() as int) =~= nsv);
                    // the registry again mirrors the forest exactly
                    assert(views_of(self.filenames@).to_multiset() =~= forest_names(
                        sec_models(self.sections@),
                    ).to_multiset()) by {
                        let vf = views_of(self.filenames@).to_multiset();
                        let ff = forest_names(sec_models(self.sections@)).to_multiset();
                        assert(f0.to_multiset() == vf.add(nsv.to_multiset()));
                        assert(forest_names(sec_models(old_b.sections@)).to_multiset() == ff.add(
                            nsv.to_multiset(),
                        ));
                        assert(f0.to_multiset() == forest_names(
                            sec_models(old_b.sections@),
                        ).to_multiset());
                        assert forall|x: Seq<char>| vf.count(x) == ff.count(x) by {
                            assert(vf.add(nsv.to_multiset()).count(x) == vf.count(x)
                                + nsv.to_multiset().count(x));
                            assert(ff.add(nsv.to_multiset()).count(x) == ff.count(x)
                                + nsv.to_multiset().count(x));
                            assert(vf.add(nsv.to_multiset()).count(x) == ff.add(
                                nsv.to_multiset(),
                            ).count(x));
                        }
                    }
                    assert(forest_names(sec_models(self.sections@)).no_duplicates()) by {
                        views_of(self.filenames@).lemma_multiset_has_no_duplicates();
                        forest_names(sec_models(self.sections@)).lemma_multiset_has_no_duplicates_conv();
                    }
                }
            },
            Option::None => (),
        }
        // drop the cover stylesheet and image entries
        match &cssf {
            Option::Some(css) => {
                self.stylesheet.remove_name(css);
                proof {
                    lemma_remove_key_wf(old_b.stylesheet.entries@, css@);
                }
            },
            Option::None => (),
        }
        self.images.remove_name(&imgf);
        proof {
            lemma_remove_key_wf(old_b.images.entries@, imgf@);
        }
        Result::Ok(())
    }
}

/// The names of `ns` with every occurrence of `x` left out, in order.
pub open spec fn remove_str_spec(ns: Seq<String>, x: Seq<char>) -> Seq<String>
    decreases ns,
{
    if ns.len() == 0 {
        Seq::empty()
    } else if ns.last()@ == x {
        remove_str_spec(ns.drop_last(), x)
    } else {
        remove_str_spec(ns.drop_last(), x).push(ns.last())
    }
}

/// Removing one name from a duplicate-free list removes exactly one
/// occurrence from its multiset and keeps it duplicate-free.
pub proof fn lemma_remove_str_multiset(ns: Seq<String>, x: Seq<char>)
    requires
        views_of(ns).no_duplicates(),
    ensures
        views_of(remove_str_spec(ns, x)).to_multiset() == (if views_of(ns).contains(x) {
            views_of(ns).to_multiset().remove(x)
        } else {
            views_of(ns).to_multiset()
        }),
        views_of(remove_str_spec(ns, x)).no_duplicates(),
        !views_of(remove_str_spec(ns, x)).contains(x),
        !views_of(ns).contains(x) ==> views_of(remove_str_spec(ns, x)) == views_of(ns),
    decreases ns,
{
    let v = views_of(ns);
    if ns.len() == 0 {
        assert(views_of(remove_str_spec(ns, x)) =~= Seq::<Seq<char>>::empty());
    } else {
        let d = ns.drop_last();
        let vd = views_of(d);
        assert(v =~= vd.push(ns.last()@));
        assert(vd.no_duplicates()) by {
            assert(forall|j: int| 0 <= j < vd.len() ==> vd[j] == v[j]);
        }
        lemma_remove_str_multiset(d, x);
        let rd = views_of(remove_str_spec(d, x));
        if ns.last()@ == x {
            assert(views_of(remove_str_spec(ns, x)) == rd);
            assert(!vd.contains(x)) by {
                if vd.contains(x) {
                    let j = choose|j: int| 0 <= j < vd.len() && vd[j] == x;
                    assert(v[j] == x && v[v.len() - 1] == x);
                }
            }
            assert(rd == vd);
            assert(v.contains(x)) by {
                assert(v[v.len() - 1] == x);
            }
            assert(rd.to_multiset() =~= v.to_multiset().remove(x));
        } else {
            assert(views_of(remove_str_spec(ns, x)) =~= rd.push(ns.last()@));
            assert(!rd.contains(ns.last()@)) by {
                if rd.contains(ns.last()@) {
                    assert(rd.to_multiset().count(ns.last()@) > 0);
                    assert(vd.to_multiset().count(ns.last()@) > 0);
                    assert(vd.contains(ns.last()@));
                    let j = choose|j: int| 0 <= j < vd.len() && vd[j] == ns.last()@;
                    assert(v[j] == v[v.len() - 1]);
                }
            }
            assert(rd.push(ns.last()@).no_duplicates()) by {
                let rp = rd.push(ns.last()@);
                assert forall|a: int, b: int|
                    0 <= a < rp.len() && 0 <= b < rp.len() && a != b implies rp[a] != rp[b] by {
                    if a < rd.len() && b < rd.len() {
                    } else if a < rd.len() {
                        if rp[a] == rp[b] {
                            assert(rd[a] == ns.last()@);
                        }
                    } else if b < rd.len() {
                        if rp[a] == rp[b] {
                            assert(rd[b] == ns.last()@);
                        }
                    }
                }
            }
            if vd.contains(x) {
                assert(v.contains(x)) by {
                    let j = choose|j: int| 0 <= j < vd.len() && vd[j] == x;
                    assert(v[j] == x);
                }
                assert(rd.push(ns.last()@).to_multiset() =~= v.to_multiset().remove(x));
            } else {
                assert(!v.contains(x)) by {
                    if v.contains(x) {
                        let j = choose|j: int| 0 <= j < v.len() && v[j] == x;
                        assert(j == v.len() - 1 || vd[j] == x);
                    }
                }
                assert(rd == vd);
                assert(rd.push(ns.last()@) =~= v);
                assert(rd.push(ns.last()@).to_multiset() =~= v.to_multiset());
            }
        }
    }
}

/// Collect every filename of a subtree.
fn collect_names(sec: &Section) -> (r: Vec<String>)
    ensures
        views_of(r@) == names_of(sec.model()),
    decreases *sec,
{
    let mut out: Vec<String> = Vec::new();
    out.push(sec.filename.clone());
    let ghost cs0 = sec.childs@;
    let mut i: usize = 0;
    proof {
        lemma_sec_models_index(cs0);
        assert(views_of(out@) =~= seq![sec.filename@]);
        assert(forest_names(sec_models(cs0).subrange(0, 0)) =~= Seq::<Seq<char>>::empty());
        assert(views_of(out@) =~= seq![sec.filename@] + forest_names(
            sec_models(cs0).subrange(0, 0),
        ));
    }
    while i < sec.childs.len()
        invariant
            i <= cs0.len(),
            sec.childs@ == cs0,
            sec_models(cs0).len() == cs0.len(),
            forall|j: int| 0 <= j < cs0.len() ==> sec_models(cs0)[j] == cs0[j].model(),
            views_of(out@) == seq![sec.filename@] + forest_names(
                sec_models(cs0).subrange(0, i as int),
            ),
        decreases cs0.len() - i,
    {
        let sub = collect_names(&sec.childs[i]);
        let ghost out0 = out@;
        let mut k: usize = 0;
        proof {
            assert(views_of(sub@).subrange(0, 0) =~= Seq::<Seq<char>>::empty());
            assert(views_of(out@) =~= views_of(out0) + views_of(sub@).subrange(0, 0));
        }
        while k < sub.len()
            invariant
                k <= sub@.len(),
                i < cs0.len(),
                views_of(sub@) == names_of(cs0[i as int].model()),
                views_of(out@) == views_of(out0) + views_of(sub@).subrange(0, k as int),
            decreases sub@.len() - k,
        {
            let ghost prev = out@;
            let ghost name_v = sub@[k as int]@;
            let name = sub[k].clone();
            out.push(name);
            proof {
                assert(views_of(out@) =~= views_of(prev).push(name_v));
                assert(name_v == views_of(sub@)[k as int]);
                assert(views_of(sub@).subrange(0, k + 1 as int) =~= views_of(sub@).subrange(
                    0,
                    k as int,
                ).push(views_of(sub@)[k as int]));
                assert(views_of(out@) =~= views_of(out0) + views_of(sub@).subrange(
                    0,
                    k + 1 as int,
                ));
            }
            k = k + 1;
        }
        proof {
            assert(views_of(sub@).subrange(0, sub@.len() as int) =~= views_of(sub@));
            let pre = sec_models(cs0).subrange(0, i as int);
            let cur = sec_models(cs0).subrange(0, i + 1 as int);
            assert(cur.drop_last() =~= pre);
            assert(cur.last() == sec_models(cs0)[i as int]);
            assert(views_of(out@) =~= seq![sec.filename@] + forest_names(cur));
        }
        i = i + 1;
    }
    proof {
        assert(sec_models(cs0).subrange(0, cs0.len() as int) =~= sec_models(cs0));
    }
    out
}

/// Remove every occurrence of a filename from the flat name registry.
fn remove_filename(ns: &mut Vec<String>, x: &String)
    ensures
        final(ns)@ == remove_str_spec(old(ns)@, x@),
{
    let ghost ns0 = ns@;
    let mut out: Vec<String> = Vec::new();
    let mut i: usize = 0;
    proof {
        assert(out@ =~= remove_str_spec(ns0.subrange(0, 0), x@));
    }
    while i < ns.len()
        invariant
            i <= ns0.len(),
            ns@ == ns0,
            out@ == remove_str_spec(ns0.subrange(0, i as int), x@),
        decreases ns0.len() - i,
    {
        proof {
            let pre = ns0.subrange(0, i as int);
            let cur = ns0.subrange(0, i + 1 as int);
            assert(cur.drop_last() =~= pre);
            assert(cur.last() == ns0[i as int]);
        }
        if !ns[i].eq(x) {
            let name = ns[i].clone();
            out.push(name);
        }
        i = i + 1;
    }
    proof {
        assert(ns0.subrange(0, ns0.len() as int) =~= ns0);
    }
    *ns = out;

}

/// Keys of a class stay unique when an entry is removed.
pub proof fn lemma_remove_key_wf(es: Seq<(String, String)>, k: Seq<char>)
    requires
        crate::entry_keys(es).no_duplicates(),
    ensures
        crate::entry_keys(remove_key_spec(es, k)).no_duplicates(),
    decreases es,
{
    if es.len() > 0 {
        let d = es.drop_last();
        assert(crate::entry_keys(d).no_duplicates()) by {
            assert(forall|j: int|
                0 <= j < crate::entry_keys(d).len() ==> crate::entry_keys(d)[j]
                    == crate::entry_keys(es)[j]);
        }
        lemma_remove_key_wf(d, k);
        if es.last().0@ != k {
            let rd = remove_key_spec(d, k);
            assert(crate::entry_keys(remove_key_spec(es, k)) =~= crate::entry_keys(rd).push(
                es.last().0@,
            ));
            assert(!crate::entry_keys(rd).contains(es.last().0@)) by {
                lemma_remove_key_subset(d, k);
                if crate::entry_keys(rd).contains(es.last().0@) {
                    assert(crate::entry_keys(d).contains(es.last().0@));
                    let j = choose|j: int|
                        0 <= j < crate::entry_keys(d).len() && crate::entry_keys(d)[j]
                            == es.last().0@;
                    assert(forall|m: int|
                        0 <= m < crate::entry_keys(d).len() ==> crate::entry_keys(d)[m]
                            == crate::entry_keys(es)[m]);
                    assert(crate::entry_keys(es)[es.len() - 1] == es.last().0@);
                    assert(crate::entry_keys(es)[j] == crate::entry_keys(es)[es.len() - 1]);
                }
            }
            let rp = crate::entry_keys(rd).push(es.last().0@);
            assert forall|a: int, b: int|
                0 <= a < rp.len() && 0 <= b < rp.len() && a != b implies rp[a] != rp[b] by {
                if a < rp.len() - 1 && b < rp.len() - 1 {
                } else if a < rp.len() - 1 {
                    if rp[a] == rp[b] {
                        assert(crate::entry_keys(rd)[a] == es.last().0@);
                    }
                } else if b < rp.len() - 1 {
                    if rp[a] == rp[b] {
                        assert(crate::entry_keys(rd)[b] == es.last().0@);
                    }
                }
            }
        }
    }
}

/// Every key of the filtered entries is a key of the unfiltered entries.
pub proof fn lemma_remove_key_subset(es: Seq<(String, String)>, k: Seq<char>)
    ensures
        forall|x: Seq<char>|
            crate::entry_keys(remove_key_spec(es, k)).contains(x) ==> crate::entry_keys(
                es,
            ).contains(x),
    decreases es,
{
    if es.len() > 0 {
        let d = es.drop_last();
        lemma_remove_key_subset(d, k);
        assert(forall|j: int|
            0 <= j < crate::entry_keys(d).len() ==> crate::entry_keys(d)[j] == crate::entry_keys(
                es,
            )[j]);
        assert(crate::entry_keys(es)[es.len() - 1] == es.last().0@);
        assert forall|x: Seq<char>|
            crate::entry_keys(remove_key_spec(es, k)).contains(x) implies crate::entry_keys(
            es,
        ).contains(x) by {
            let r = crate::entry_keys(remove_key_spec(es, k));
            let j = choose|j: int| 0 <= j < r.len() && r[j] == x;
            if es.last().0@ != k {
                let rd = remove_key_spec(d, k);
                assert(r =~= crate::entry_keys(rd).push(es.last().0@));
                if j < r.len() - 1 {
                    assert(crate::entry_keys(rd).contains(x));
                    assert(crate::entry_keys(d).contains(x));
                    let m = choose|m: int|
                        0 <= m < crate::entry_keys(d).len() && crate::entry_keys(d)[m] == x;
                    assert(crate::entry_keys(es)[m] == x);
                } else {
                    assert(x == es.last().0@);
                }
            } else {
                assert(crate::entry_keys(d).contains(x));
                let m = choose|m: int|
                    0 <= m < crate::entry_keys(d).len() && crate::entry_keys(d)[m] == x;
                assert(crate::entry_keys(es)[m] == x);
            }
        }
    }
}

/// The state of the builder after the previous cover's resources have
/// been torn down: the cover's content node (with its subtree) is gone
/// from the forest and the flat name registry, and its stylesheet and
/// image entries are gone from their classes.  With no active cover
/// nothing changes.
pub open spec fn cover_cleared(old_b: EpubBuilder, mid: EpubBuilder) -> bool {
    match old_b.cover {
        Option::None => mid == old_b,
        Option::Some(c) => {
            if c.filename@.len() == 0 {
                mid == old_b
            } else {
                mid.stylesheet.entries@ == (match c.css_filename {
                    Option::Some(css) => remove_key_spec(old_b.stylesheet.entries@, css@),
                    Option::None => old_b.stylesheet.entries@,
                }) && mid.images.entries@ == remove_key_spec(
                    old_b.images.entries@,
                    c.image_filename@,
                ) && (if forest_names(sec_models(old_b.sections@)).contains(c.xhtml_filename@) {
                    exists|removed: SectionModel|
                        removed.filename == c.xhtml_filename@ && sec_models(mid.sections@)
                            == remove_forest(sec_models(old_b.sections@), c.xhtml_filename@)
                            && forest_names(sec_models(old_b.sections@)).to_multiset()
                            == forest_names(sec_models(mid.sections@)).to_multiset().add(
                            #[trigger] names_of(removed).to_multiset(),
                        ) && views_of(old_b.filenames@).to_multiset() == views_of(
                            mid.filenames@,
                        ).to_multiset().add(names_of(removed).to_multiset())
                } else {
                    sec_models(mid.sections@) == sec_models(old_b.sections@) && mid.filenames@
                        == old_b.filenames@
                }) && mid == (EpubBuilder {
                    stylesheet: mid.stylesheet,
                    images: mid.images,
                    sections: mid.sections,
                    filenames: mid.filenames,
                    ..old_b
                })
            }
        },
    }
}

pub proof fn lemma_remove_key_len(es: Seq<(String, String)>, k: Seq<char>)
    ensures
        remove_key_spec(es, k).len() <= es.len(),
    decreases es,
{
    if es.len() > 0 {
        lemma_remove_key_len(es.drop_last(), k);
    }
}

pub proof fn lemma_remove_str_len(ns: Seq<String>, x: Seq<char>)
    ensures
        remove_str_spec(ns, x).len() <= ns.len(),
    decreases ns,
{
    if ns.len() > 0 {
        lemma_remove_str_len(ns.drop_last(), x);
    }
}

/// The behavior of the cover-replacement protocol once the previous
/// cover has been torn down and the image source has passed its checks:
/// the image is registered, then the content node is created; a failure
/// after the teardown leaves the builder without a cover, as the
/// replacement is deliberately not transactional.
pub open spec fn set_cover_steps(
    old_b: EpubBuilder,
    new_b: EpubBuilder,
    img: SourceRef,
    css: Option<SourceRef>,
    r: Result<String, Error>,
) -> bool {
    exists|mid: EpubBuilder|
        #[trigger] cover_cleared(old_b, mid) && set_cover_after_clear(mid, new_b, img, css, r)
}

/// The image-registration step of the cover-replacement protocol.
pub open spec fn set_cover_after_clear(
    mid: EpubBuilder,
    new_b: EpubBuilder,
    img: SourceRef,
    css: Option<SourceRef>,
    r: Result<String, Error>,
) -> bool {
    let img_name = auto_media_name(mid.images.keys(), img.location@, "image"@);
    if mid.images.keys().contains(img_name) {
        r matches Result::Err(Error::FilenameUsedErr(_)) && new_b == mid
    } else {
        exists|mid2: EpubBuilder|
            (#[trigger] mid2.images.map_view()) == mid.images.map_view().push(
                (img_name, img.location@),
            ) && mid2 == (EpubBuilder { images: mid2.images, ..mid }) && set_cover_add_section(
                mid2,
                new_b,
                img,
                img_name,
                css,
                r,
            )
    }
}

/// The content-node step of the cover-replacement protocol.
pub open spec fn set_cover_add_section(
    mid2: EpubBuilder,
    new_b: EpubBuilder,
    img: SourceRef,
    img_name: Seq<char>,
    css: Option<SourceRef>,
    r: Result<String, Error>,
) -> bool {
    let body = "<img src=\""@ + ("../"@ + "images"@ + "/"@ + img_name) + "\" alt=\"cover\"/>"@;
    match r {
        Result::Ok(name) => exists|mid3: EpubBuilder|
            #[trigger] add_sub_section_post(
                mid2,
                mid3,
                Option::None,
                body,
                "\u{5c01}\u{9762}"@,
                Option::Some("cover.xhtml"@),
                css,
                Result::Ok(name),
            ) && new_b == (EpubBuilder { cover: new_b.cover, ..mid3 }) && (new_b.cover
                matches Option::Some(c) && c.xhtml_filename@ == name@ && c.image_filename@
                == img_name && c.filename@ == crate::strutil::base_name_spec(img.location@) && (
            match css {
                Option::None => c.css_filename is None,
                Option::Some(src) => c.css_filename matches Option::Some(s) && s@ == css_auto_name(
                    mid2.stylesheet.keys(),
                    src.location@,
                ),
            })),
        Result::Err(e) => add_sub_section_post(
            mid2,
            new_b,
            Option::None,
            body,
            "\u{5c01}\u{9762}"@,
            Option::Some("cover.xhtml"@),
            css,
            Result::Err(e),
        ),
    }
}

/// The next structural level used when projecting a child, capped at the
/// greatest representable level.
pub open spec fn next_level(l: int) -> int {
    if l < i32::MAX {
        l + 1
    } else {
        l
    }
}

/// The projection of a content node into a navigation node: the link
/// points at the content file under its fixed subfolder, the body is
/// ignored, and children keep their order one level deeper.
pub open spec fn toc_from_section(m: SectionModel, l: int) -> TocElemModel
    decreases m,
{
    TocElemModel {
        level: l,
        url: "xhtml"@ + "/"@ + m.filename,
        title: m.title,
        childs: toc_from_sections(m.childs, next_level(l)),
    }
}

/// The projection of a forest of content nodes, in order.
pub open spec fn toc_from_sections(ms: Seq<SectionModel>, l: int) -> Seq<TocElemModel>
    decreases ms,
{
    if ms.len() == 0 {
        Seq::empty()
    } else {
        toc_from_sections(ms.drop_last(), l).push(toc_from_section(ms.last(), l))
    }
}

pub proof fn lemma_toc_from_sections_index(ms: Seq<SectionModel>, l: int)
    ensures
        toc_from_sections(ms, l).len() == ms.len(),
        forall|i: int|
            0 <= i < ms.len() ==> toc_from_sections(ms, l)[i] == toc_from_section(ms[i], l),
    decreases ms,
{
    if ms.len() > 0 {
        lemma_toc_from_sections_index(ms.drop_last(), l);
    }
}

/// The header metadata the navigation encoder is handed: the package
/// identifier, the fixed page counters, and the observed tree depth.
pub open spec fn toc_meta_views(b: EpubBuilder, depth_val: nat) -> Seq<(Seq<char>, Seq<char>)> {
    seq![
        (
            "dtb:uid"@,
            match b.identifier {
                Option::Some(id) => id@,
                Option::None => Seq::<char>::empty(),
            },
        ),
        ("dtb:totalPageCount"@, "0"@),
        ("dtb:maxPageNumber"@, "0"@),
        ("dtb:depth"@, dec_spec(depth_val)),
    ]
}

/// The depth figure recorded in the navigation header: the number of
/// nesting levels, and 1 for an empty forest.
pub open spec fn toc_depth_val(elems: Seq<TocElemModel>) -> nat {
    if elems.len() == 0 {
        1
    } else {
        crate::toc::depth_list(elems)
    }
}

/// The complete behavior of `add_sub_section`: the filename resolution,
/// the registry and forest transitions on success, and the exact
/// conditions under which each error is returned with the builder
/// untouched.
pub open spec fn add_sub_section_post(
    old_b: EpubBuilder,
    new_b: EpubBuilder,
    parent_filename: Option<String>,
    body: Seq<char>,
    title: Seq<char>,
    internal_filename: Option<Seq<char>>,
    css: Option<SourceRef>,
    r: Result<String, Error>,
) -> bool {
    let names0 = views_of(old_b.filenames@);
    let resolved_explicit = match internal_filename {
        Option::Some(f) => with_xhtml_ext(f),
        Option::None => Seq::empty(),
    };
    let parent_given = match parent_filename {
        Option::Some(p) => p@.len() > 0,
        Option::None => false,
    };
    let parent_name = match parent_filename {
        Option::Some(p) => p@,
        Option::None => Seq::empty(),
    };
    let css_name = match css {
        Option::Some(src) => css_auto_name(old_b.stylesheet.keys(), src.location@),
        Option::None => Seq::empty(),
    };
    match r {
        Result::Ok(name) => (match internal_filename {
            Option::Some(f) => name@ == with_xhtml_ext(f),
            Option::None => is_first_free_auto(names0, name@),
        }) && !names0.contains(name@) && views_of(new_b.filenames@) == names0.push(name@) && (
        match css {
            Option::None => new_b.stylesheet == old_b.stylesheet,
            Option::Some(src) => src.exists && !old_b.stylesheet.keys().contains(css_name)
                && new_b.stylesheet.map_view() == old_b.stylesheet.map_view().push(
                (css_name, src.location@),
            ),
        }) && ({
            let href = match css {
                Option::None => Option::None,
                Option::Some(src) => Option::Some("../"@ + "css"@ + "/"@ + css_name),
            };
            let nm = new_section_model(name@, title, body, href);
            if parent_given {
                names0.contains(parent_name) && sec_models(new_b.sections@) == attach_forest(
                    sec_models(old_b.sections@),
                    parent_name,
                    nm,
                )
            } else {
                sec_models(new_b.sections@) == sec_models(old_b.sections@).push(nm)
            }
        }) && new_b == (EpubBuilder {
            stylesheet: new_b.stylesheet,
            sections: new_b.sections,
            filenames: new_b.filenames,
            ..old_b
        }),
        Result::Err(e) => new_b == old_b && (match e {
            Error::FilenameExistedErr(msg) => internal_filename is Some && names0.contains(
                resolved_explicit,
            ) && msg@ == "file already exists:"@ + resolved_explicit,
            Error::ParentExistedErr(msg) => (internal_filename is Some ==> !names0.contains(
                resolved_explicit,
            )) && parent_given && !names0.contains(parent_name) && msg@
                == "Parent file already exists:"@ + parent_name,
            Error::FileNotFoundErr(_) => (internal_filename is Some ==> !names0.contains(
                resolved_explicit,
            )) && (parent_given ==> names0.contains(parent_name)) && (css matches Option::Some(src)
                && !src.exists),
            Error::FilenameUsedErr(_) => (internal_filename is Some ==> !names0.contains(
                resolved_explicit,
            )) && (parent_given ==> names0.contains(parent_name)) && (css matches Option::Some(src)
                && src.exists && old_b.stylesheet.keys().contains(css_name)),
            _ => false,
        }),
    }

}

/// Every name of a forest sits in the subtree of one of its elements.
pub proof fn lemma_forest_member_location(ms: Seq<SectionModel>, x: Seq<char>)
    requires
        forest_names(ms).contains(x),
    ensures
        exists|j: int| 0 <= j < ms.len() && names_of(ms[j]).contains(x),
    decreases ms,
{
    if ms.len() > 0 {
        if names_of(ms.last()).contains(x) {
            assert(names_of(ms[ms.len() - 1]).contains(x));
        } else {
            let i = choose|i: int| 0 <= i < forest_names(ms).len() && forest_names(ms)[i] == x;
            if i < forest_names(ms.drop_last()).len() {
                assert(forest_names(ms.drop_last())[i] == x);
                assert(forest_names(ms.drop_last()).contains(x));
                lemma_forest_member_location(ms.drop_last(), x);
                let j = choose|j: int|
                    0 <= j < ms.drop_last().len() && names_of(ms.drop_last()[j]).contains(x);
                assert(names_of(ms[j]).contains(x));
            } else {
                assert(names_of(ms.last())[i - forest_names(ms.drop_last()).len()] == x);
            }
        }
    }
}

/// After replacing element `i` with the attached node, the forest is
/// exactly the attachment of the old forest, and its names gain exactly
/// the names of the attached child.
proof fn lemma_after_attach(
    ss0: Seq<Section>,
    ms0: Seq<SectionModel>,
    i: int,
    sec: Section,
    p: Seq<char>,
    cm: SectionModel,
)
    requires
        0 <= i < ss0.len(),
        ms0 == sec_models(ss0),
        forest_names(ms0).no_duplicates(),
        names_of(ms0[i]).contains(p),
        sec.model() == attach_node(ms0[i], p, cm),
        names_of(attach_node(ms0[i], p, cm)).to_multiset() == names_of(ms0[i]).to_multiset().add(
            names_of(cm).to_multiset(),
        ),
    ensures
        sec_models(ss0.update(i, sec)) == attach_forest(ms0, p, cm),
        forest_names(sec_models(ss0.update(i, sec))).to_multiset() == forest_names(
            ms0,
        ).to_multiset().add(names_of(cm).to_multiset()),
        forest_names(ms0).contains(p),
{
    lemma_sec_models_index(ss0);
    lemma_sec_models_index(ss0.update(i, sec));
    lemma_attach_forest_index(ms0, p, cm);
    lemma_unique_location(ms0, i, p);
    assert forall|j: int| 0 <= j < ms0.len() && j != i implies attach_node(ms0[j], p, cm)
        == ms0[j] by {
        lemma_attach_node_absent(ms0[j], p, cm);
    }
    assert(sec_models(ss0.update(i, sec)) =~= attach_forest(ms0, p, cm));
    let new_ms = sec_models(ss0.update(i, sec));
    assert(new_ms[i] == attach_node(ms0[i], p, cm));
    assert forall|x: Seq<char>|
        forest_names(new_ms).to_multiset().count(x) == forest_names(ms0).to_multiset().add(
            names_of(cm).to_multiset(),
        ).count(x) by {
        lemma_names_count_split(ms0, i, x);
        lemma_names_count_split(new_ms, i, x);
        assert(new_ms.subrange(0, i) =~= ms0.subrange(0, i));
        assert(new_ms.subrange(i + 1, new_ms.len() as int) =~= ms0.subrange(
            i + 1,
            ms0.len() as int,
        ));
    }
    assert(forest_names(new_ms).to_multiset() =~= forest_names(ms0).to_multiset().add(
        names_of(cm).to_multiset(),
    ));
    let k = choose|k: int| 0 <= k < names_of(ms0[i]).len() && names_of(ms0[i])[k] == p;
    lemma_forest_names_split(ms0, i);
    assert(forest_names(ms0)[forest_names(ms0.subrange(0, i)).len() + k] == p);
}

/// Removal of the subtree rooted at every node named `f` (a well-formed
/// tree has at most one).
pub open spec fn remove_node(m: SectionModel, f: Seq<char>) -> SectionModel
    decreases m,
{
    SectionModel { childs: remove_forest(m.childs, f), ..m }
}

/// Removal of the subtrees rooted at nodes named `f` from a forest.
pub open spec fn remove_forest(ms: Seq<SectionModel>, f: Seq<char>) -> Seq<SectionModel>
    decreases ms,
{
    if ms.len() == 0 {
        Seq::empty()
    } else if ms.last().filename == f {
        remove_forest(ms.drop_last(), f)
    } else {
        remove_forest(ms.drop_last(), f).push(remove_node(ms.last(), f))
    }
}

pub proof fn lemma_remove_forest_concat(a: Seq<SectionModel>, b: Seq<SectionModel>, f: Seq<char>)
    ensures
        remove_forest(a + b, f) == remove_forest(a, f) + remove_forest(b, f),
    decreases b,
{
    if b.len() == 0 {
        assert(a + b =~= a);
        assert(remove_forest(a, f) + remove_forest(b, f) =~= remove_forest(a, f));
    } else {
        assert((a + b).drop_last() =~= a + b.drop_last());
        assert((a + b).last() == b.last());
        lemma_remove_forest_concat(a, b.drop_last(), f);
        if b.last().filename != f {
            assert(remove_forest(a, f) + remove_forest(b.drop_last(), f) + seq![
                remove_node(b.last(), f),
            ] =~= remove_forest(a, f) + remove_forest(b, f));
            assert(remove_forest(a + b, f) =~= remove_forest(a, f) + remove_forest(b, f));
        }
    }
}

/// A node whose subtree does not hold the name is unchanged by removal.
pub proof fn lemma_remove_node_absent(m: SectionModel, f: Seq<char>)
    requires
        !names_of(m).contains(f),
    ensures
        remove_node(m, f) == m,
    decreases m,
{
    assert forall|x: Seq<char>| forest_names(m.childs).contains(x) implies names_of(m).contains(
        x,
    ) by {
        let i = choose|i: int| 0 <= i < forest_names(m.childs).len() && forest_names(m.childs)[i]
            == x;
        assert(names_of(m)[1 + i] == x);
    }
    lemma_remove_forest_absent(m.childs, f);
    assert(SectionModel { childs: m.childs, ..m } == m);
}

/// A forest without the name is unchanged by removal.
pub proof fn lemma_remove_forest_absent(ms: Seq<SectionModel>, f: Seq<char>)
    requires
        !forest_names(ms).contains(f),
    ensures
        remove_forest(ms, f) == ms,
    decreases ms,
{
    if ms.len() > 0 {
        assert forall|x: Seq<char>| forest_names(ms.drop_last()).contains(x) implies forest_names(
            ms,
        ).contains(x) by {
            let i = choose|i: int|
                0 <= i < forest_names(ms.drop_last()).len() && forest_names(ms.drop_last())[i] == x;
            assert(forest_names(ms)[i] == x);
        }
        assert forall|x: Seq<char>| names_of(ms.last()).contains(x) implies forest_names(
            ms,
        ).contains(x) by {
            let i = choose|i: int|
                0 <= i < names_of(ms.last()).len() && names_of(ms.last())[i] == x;
            assert(forest_names(ms)[forest_names(ms.drop_last()).len() + i] == x);
        }
        assert(names_of(ms.last())[0] == ms.last().filename);
        lemma_remove_forest_absent(ms.drop_last(), f);
        lemma_remove_node_absent(ms.last(), f);
        assert(remove_forest(ms, f) =~= ms);
    }
}

} // verus!
