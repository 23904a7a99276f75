//! Semantically tagged pieces of text: the output currency of every parser.

use vstd::prelude::*;
use vstd::string::*;

use crate::text::{find_sub_from, replace_all, replace_spec};

verus! {

broadcast use {vstd::seq::axiom_seq_subrange_decreases, vstd::std_specs::vec::group_vec_axioms};

/// A fixed display colour for an identifier, carried but never interpreted.
#[derive(Clone, Copy, Debug, PartialEq, Eq, Structural)]
pub enum Color {
    AssociatedType,
    Enum,
    Macro,
    Method,
    Primitive,
    Struct,
    Trait,
}

impl Color {
    pub open spec fn hex_spec(self) -> Seq<char> {
        match self {
            Color::AssociatedType => "#d2991d"@,
            Color::Enum => "#2dbfb8"@,
            Color::Macro => "#09bd00"@,
            Color::Method => "#2bab63"@,
            Color::Primitive => "#2dbfb8"@,
            Color::Struct => "#2dbfb8"@,
            Color::Trait => "#b78cf2"@,
        }
    }

    /// The hexadecimal colour code this tag renders with.
    pub fn to_hex(&self) -> (r: &'static str)
        ensures
            r@ == self.hex_spec(),
    {
        match self {
            Color::AssociatedType => "#d2991d",
            Color::Enum => "#2dbfb8",
            Color::Macro => "#09bd00",
            Color::Method => "#2bab63",
            Color::Primitive => "#2dbfb8",
            Color::Struct => "#2dbfb8",
            Color::Trait => "#b78cf2",
        }
    }
}

/// A single piece of information: a sentence, a word, or a mere symbol,
/// tagged with how it should be rendered.
#[derive(Debug, PartialEq)]
pub enum Fragment {
    Bold(Vec<Fragment>),
    Code(Box<Fragment>),
    CodeBlock(Box<Fragment>),
    Colored(Box<Fragment>, Color),
    Raw(String),
}

/// The mathematical shape of a `Fragment`: the same tree over `Seq<char>`.
pub ghost enum FragView {
    Bold(Seq<FragView>),
    Code(Box<FragView>),
    CodeBlock(Box<FragView>),
    Colored(Box<FragView>, Color),
    Raw(Seq<char>),
}

pub open spec fn frag_view(f: Fragment) -> FragView
    decreases f,
{
    match f {
        Fragment::Bold(v) => FragView::Bold(frags_view(v@)),
        Fragment::Code(b) => FragView::Code(Box::new(frag_view(*b))),
        Fragment::CodeBlock(b) => FragView::CodeBlock(Box::new(frag_view(*b))),
        Fragment::Colored(b, c) => FragView::Colored(Box::new(frag_view(*b)), c),
        Fragment::Raw(s) => FragView::Raw(s@),
    }
}

pub open spec fn frags_view(v: Seq<Fragment>) -> Seq<FragView>
    decreases v,
{
    if v.len() == 0 {
        Seq::empty()
    } else {
        seq![frag_view(v[0])] + frags_view(v.drop_first())
    }
}

pub broadcast proof fn lemma_frags_view(v: Seq<Fragment>)
    ensures
        (#[trigger] frags_view(v)).len() == v.len(),
        forall|i: int| 0 <= i < v.len() ==> frags_view(v)[i] == frag_view(v[i]),
    decreases v.len(),
{
    if v.len() > 0 {
        lemma_frags_view(v.drop_first());
    }
}

pub proof fn lemma_frags_view_concat(a: Seq<Fragment>, b: Seq<Fragment>)
    ensures
        frags_view(a + b) == frags_view(a) + frags_view(b),
{
    lemma_frags_view(a + b);
    lemma_frags_view(a);
    lemma_frags_view(b);
    assert(frags_view(a + b) =~= frags_view(a) + frags_view(b));
}

impl View for Fragment {
    type V = FragView;

    open spec fn view(&self) -> FragView {
        frag_view(*self)
    }
}

impl Clone for Fragment {
    /// A structural copy: the view is preserved.
    fn clone(&self) -> (r: Self)
        ensures
            r@ == self@,
        decreases *self,
    {
        broadcast use lemma_frags_view;

        match self {
            Fragment::Bold(fragments) => {
                let mut out: Vec<Fragment> = Vec::new();
                let mut i: usize = 0;
                while i < fragments.len()
                    invariant
                        self is Bold,
                        *fragments == (*self)->Bold_0,
                        i <= fragments@.len(),
                        out@.len() == i,
                        forall|k: int| 0 <= k < i ==> frag_view(out@[k]) == frag_view(fragments@[k]),
                    decreases fragments@.len() - i,
                {
                    let f = fragments[i].clone();
                    out.push(f);
                    i = i + 1;
                }
                proof {
                    assert(frags_view(out@) =~= frags_view(fragments@));
                }
                Fragment::Bold(out)
            },
            Fragment::Code(b) => Fragment::Code(Box::new((**b).clone())),
            Fragment::CodeBlock(b) => Fragment::CodeBlock(Box::new((**b).clone())),
            Fragment::Colored(b, c) => Fragment::Colored(Box::new((**b).clone()), *c),
            Fragment::Raw(s) => Fragment::Raw(s.clone()),
        }
    }
}

impl Fragment {
    /// The text inside a `Raw` fragment; other fragments carry none.
    pub fn raw_content(&self) -> (r: Option<&str>)
        ensures
            match r {
                Some(s) => self@ matches FragView::Raw(t) && s@ == t,
                None => !(self@ is Raw),
            },
    {
        match self {
            Fragment::Raw(raw_content) => Some(raw_content.as_str()),
            _ => None,
        }
    }

    /// Un-escapes every piece of raw text inside the fragment, recursively.
    pub fn un_escape_content(&self) -> (r: Fragment)
        ensures
            r@ == unesc_frag(self@),
        decreases *self,
    {
        broadcast use lemma_frags_view, lemma_unesc_frags;

        match self {
            Fragment::Bold(fragments) => {
                let mut out: Vec<Fragment> = Vec::new();
                let mut i: usize = 0;
                while i < fragments.len()
                    invariant
                        self is Bold,
                        *fragments == (*self)->Bold_0,
                        i <= fragments@.len(),
                        out@.len() == i,
                        forall|k: int|
                            0 <= k < i ==> frag_view(out@[k]) == unesc_frag(
                                frag_view(fragments@[k]),
                            ),
                    decreases fragments@.len() - i,
                {
                    let f = fragments[i].un_escape_content();
                    out.push(f);
                    i = i + 1;
                }
                proof {
                    assert(frags_view(out@) =~= unesc_frags(frags_view(fragments@)));
                }
                Fragment::Bold(out)
            },
            Fragment::Code(boxed_fragment) => Fragment::Code(
                Box::new(boxed_fragment.un_escape_content()),
            ),
            Fragment::CodeBlock(boxed_fragment) => Fragment::CodeBlock(
                Box::new(boxed_fragment.un_escape_content()),
            ),
            Fragment::Colored(boxed_fragment, color) => Fragment::Colored(
                Box::new(boxed_fragment.un_escape_content()),
                *color,
            ),
            Fragment::Raw(raw_content) => Fragment::Raw(un_escape(raw_content.as_str())),
        }
    }
}

/// `un_escape` applied to every piece of raw text in a fragment tree.
pub open spec fn unesc_frag(f: FragView) -> FragView
    decreases f,
{
    match f {
        FragView::Bold(v) => FragView::Bold(unesc_frags(v)),
        FragView::Code(b) => FragView::Code(Box::new(unesc_frag(*b))),
        FragView::CodeBlock(b) => FragView::CodeBlock(Box::new(unesc_frag(*b))),
        FragView::Colored(b, c) => FragView::Colored(Box::new(unesc_frag(*b)), c),
        FragView::Raw(s) => FragView::Raw(un_escape_spec(s)),
    }
}

pub open spec fn unesc_frags(v: Seq<FragView>) -> Seq<FragView>
    decreases v,
{
    if v.len() == 0 {
        Seq::empty()
    } else {
        seq![unesc_frag(v[0])] + unesc_frags(v.drop_first())
    }
}

pub broadcast proof fn lemma_unesc_frags(v: Seq<FragView>)
    ensures
        (#[trigger] unesc_frags(v)).len() == v.len(),
        forall|i: int| 0 <= i < v.len() ==> unesc_frags(v)[i] == unesc_frag(v[i]),
    decreases v.len(),
{
    if v.len() > 0 {
        lemma_unesc_frags(v.drop_first());
    }
}

/// The four escape sequences replaced by their plain characters, in the fixed
/// order `&lt;`, `&gt;`, `&amp;`, `&#x27;`.
pub open spec fn un_escape_spec(s: Seq<char>) -> Seq<char> {
    replace_spec(
        replace_spec(replace_spec(replace_spec(s, "&lt;"@, "<"@), "&gt;"@, ">"@), "&amp;"@, "&"@),
        "&#x27;"@,
        "'"@,
    )
}

/// Turns escaped characters back into plain characters.
pub fn un_escape(raw: &str) -> (r: String)
    ensures
        r@ == un_escape_spec(raw@),
{
    proof {
        reveal_strlit("&lt;");
        reveal_strlit("&gt;");
        reveal_strlit("&amp;");
        reveal_strlit("&#x27;");
    }
    let a = replace_all(raw, "&lt;", "<");
    let b = replace_all(a.as_str(), "&gt;", ">");
    let c = replace_all(b.as_str(), "&amp;", "&");
    replace_all(c.as_str(), "&#x27;", "'")
}

proof fn lemma_find_sub_shift(s: Seq<char>, p: Seq<char>, i: int)
    requires
        0 <= i,
        s.len() > 0,
    ensures
        find_sub_from(s, p, i + 1) == match find_sub_from(s.skip(1), p, i) {
            Some(j) => Some(j + 1),
            None => None::<int>,
        },
    decreases s.len() - i,
{
    if i < 0 || p.len() == 0 || i + 1 + p.len() > s.len() {
    } else {
        assert(s.subrange(i + 1, i + 1 + p.len()) =~= s.skip(1).subrange(i, i + p.len()));
        if s.skip(1).subrange(i, i + p.len()) == p {
        } else {
            lemma_find_sub_shift(s, p, i + 1);
        }
    }
}

/// Replacing a pattern that does not occur leaves the text unchanged.
proof fn lemma_replace_absent(s: Seq<char>, pat: Seq<char>, rep: Seq<char>)
    requires
        find_sub_from(s, pat, 0) is None,
    ensures
        replace_spec(s, pat, rep) == s,
    decreases s.len(),
{
    if pat.len() == 0 || s.len() < pat.len() {
    } else if s.take(pat.len() as int) == pat {
        assert(s.take(pat.len() as int) =~= s.subrange(0, pat.len() as int));
        assert(find_sub_from(s, pat, 0) is Some);
    } else {
        assert(s.take(pat.len() as int) =~= s.subrange(0, pat.len() as int));
        lemma_find_sub_shift(s, pat, 0);
        lemma_replace_absent(s.skip(1), pat, rep);
        assert(seq![s[0]] + s.skip(1) =~= s);
    }
}

/// Un-escaping text that holds no escape sequence is a no-op: in particular,
/// re-un-escaping text whose escapes are already resolved leaves it unchanged.
pub proof fn lemma_un_escape_no_escapes(s: Seq<char>)
    requires
        find_sub_from(s, "&lt;"@, 0) is None,
        find_sub_from(s, "&gt;"@, 0) is None,
        find_sub_from(s, "&amp;"@, 0) is None,
        find_sub_from(s, "&#x27;"@, 0) is None,
    ensures
        un_escape_spec(s) == s,
{
    lemma_replace_absent(s, "&lt;"@, "<"@);
    lemma_replace_absent(s, "&gt;"@, ">"@);
    lemma_replace_absent(s, "&amp;"@, "&"@);
    lemma_replace_absent(s, "&#x27;"@, "'"@);
}

} // verus!
