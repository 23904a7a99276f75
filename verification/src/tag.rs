//! The tag tokenizer: the text between `<` and `>` turned into a name, a
//! kind, and an attribute map.

use vstd::prelude::*;
use vstd::string::*;

use crate::errors::Herr;
use crate::text::{
    find_char, find_char_from, split_all, split_spec, trim, trim_set_spec, trim_set_str, trim_spec,
    str_eq, views,
};

verus! {

/// Any of a tag's kinds.
///
/// A fixed, closed set of element names is known to terminate itself; all
/// other names open an element unless they start with `/`.
#[derive(Clone, Copy, Debug, PartialEq, Eq, Structural)]
pub enum TagKind {
    Closing,
    Opening,
    SelfTerminating,
}

/// The full content of a tag.
#[derive(Debug, PartialEq)]
pub struct Tag {
    pub name: String,
    pub kind: TagKind,
    pub attributes: Vec<(String, String)>,
}

/// The mathematical shape of a `Tag`.
pub ghost struct TagView {
    pub name: Seq<char>,
    pub kind: TagKind,
    pub attributes: Seq<(Seq<char>, Seq<char>)>,
}

/// The views of an attribute list.
pub open spec fn attrs_view(v: Seq<(String, String)>) -> Seq<(Seq<char>, Seq<char>)> {
    Seq::new(v.len(), |i: int| (v[i].0@, v[i].1@))
}

impl View for Tag {
    type V = TagView;

    open spec fn view(&self) -> TagView {
        TagView { name: self.name@, kind: self.kind, attributes: attrs_view(self.attributes@) }
    }
}

/// The value stored under `key`, if any; keys are unique, so the first match
/// is the only one.
pub open spec fn attrs_get(m: Seq<(Seq<char>, Seq<char>)>, key: Seq<char>) -> Option<Seq<char>>
    decreases m.len(),
{
    if m.len() == 0 {
        None
    } else if m[0].0 == key {
        Some(m[0].1)
    } else {
        attrs_get(m.drop_first(), key)
    }
}

/// Insertion that keeps keys unique: an existing key has its value replaced
/// in place, a new key is appended.
pub open spec fn attrs_insert(
    m: Seq<(Seq<char>, Seq<char>)>,
    key: Seq<char>,
    val: Seq<char>,
) -> Seq<(Seq<char>, Seq<char>)>
    decreases m.len(),
{
    if m.len() == 0 {
        seq![(key, val)]
    } else if m[0].0 == key {
        seq![(key, val)] + m.drop_first()
    } else {
        seq![m[0]] + attrs_insert(m.drop_first(), key, val)
    }
}

proof fn lemma_attrs_insert_found(m: Seq<(Seq<char>, Seq<char>)>, key: Seq<char>, val: Seq<char>, j: int)
    requires
        0 <= j < m.len(),
        m[j].0 == key,
        forall|l: int| 0 <= l < j ==> m[l].0 != key,
    ensures
        attrs_insert(m, key, val) == m.update(j, (key, val)),
    decreases j,
{
    if j == 0 {
        assert(attrs_insert(m, key, val) =~= m.update(0, (key, val)));
    } else {
        lemma_attrs_insert_found(m.drop_first(), key, val, j - 1);
        assert(attrs_insert(m, key, val) =~= m.update(j, (key, val)));
    }
}

proof fn lemma_attrs_insert_absent(m: Seq<(Seq<char>, Seq<char>)>, key: Seq<char>, val: Seq<char>)
    requires
        forall|l: int| 0 <= l < m.len() ==> m[l].0 != key,
    ensures
        attrs_insert(m, key, val) == m.push((key, val)),
    decreases m.len(),
{
    if m.len() == 0 {
        assert(attrs_insert(m, key, val) =~= m.push((key, val)));
    } else {
        lemma_attrs_insert_absent(m.drop_first(), key, val);
        assert(attrs_insert(m, key, val) =~= m.push((key, val)));
    }
}

/// Inserts into the attribute list with the semantics of `attrs_insert`.
fn insert_attr(m: &mut Vec<(String, String)>, key: String, val: String)
    ensures
        attrs_view(final(m)@) == attrs_insert(attrs_view(old(m)@), key@, val@),
{
    let n = m.len();
    let mut j: usize = 0;
    while j < n
        invariant
            n == m@.len(),
            j <= n,
            m@ == old(m)@,
            forall|l: int| 0 <= l < j ==> attrs_view(m@)[l].0 != key@,
        decreases n - j,
    {
        if str_eq(m[j].0.as_str(), key.as_str()) {
            let _ = m.remove(j);
            m.insert(j, (key, val));
            proof {
                lemma_attrs_insert_found(attrs_view(old(m)@), key@, val@, j as int);
                assert(attrs_view(m@) =~= attrs_view(old(m)@).update(j as int, (key@, val@)));
            }
            return ;
        }
        j = j + 1;
    }
    m.push((key, val));
    proof {
        lemma_attrs_insert_absent(attrs_view(old(m)@), key@, val@);
        assert(attrs_view(m@) =~= attrs_view(old(m)@).push((key@, val@)));
    }
}

/// Looks a key up in an attribute list, with the semantics of `attrs_get`.
pub fn attrs_lookup<'a>(m: &'a Vec<(String, String)>, key: &str) -> (r: Option<&'a String>)
    ensures
        match r {
            Some(v) => attrs_get(attrs_view(m@), key@) == Some(v@),
            None => attrs_get(attrs_view(m@), key@) is None,
        },
{
    let n = m.len();
    let mut j: usize = 0;
    proof {
        assert(attrs_view(m@).skip(0) =~= attrs_view(m@));
    }
    while j < n
        invariant
            n == m@.len(),
            j <= n,
            attrs_get(attrs_view(m@), key@) == attrs_get(attrs_view(m@).skip(j as int), key@),
        decreases n - j,
    {
        proof {
            assert(attrs_view(m@).skip(j as int)[0] == attrs_view(m@)[j as int]);
            assert(attrs_view(m@).skip(j as int).drop_first() =~= attrs_view(m@).skip(j + 1));
        }
        if str_eq(m[j].0.as_str(), key) {
            return Some(&m[j].1);
        }
        j = j + 1;
    }
    None
}

/// The seventeen element names that terminate themselves.
pub open spec fn is_self_terminating(name: Seq<char>) -> bool {
    ||| name == "area"@
    ||| name == "base"@
    ||| name == "br"@
    ||| name == "col"@
    ||| name == "command"@
    ||| name == "embed"@
    ||| name == "hr"@
    ||| name == "img"@
    ||| name == "input"@
    ||| name == "keygen"@
    ||| name == "link"@
    ||| name == "menuitem"@
    ||| name == "meta"@
    ||| name == "param"@
    ||| name == "source"@
    ||| name == "track"@
    ||| name == "wbr"@
}

/// The kind a tag of this name has.
pub open spec fn tag_kind_spec(name: Seq<char>) -> TagKind {
    if is_self_terminating(name) {
        TagKind::SelfTerminating
    } else if name.len() > 0 && name[0] == '/' {
        TagKind::Closing
    } else {
        TagKind::Opening
    }
}

fn kind_of(name: &str) -> (r: TagKind)
    ensures
        r == tag_kind_spec(name@),
{
    if str_eq(name, "area") || str_eq(name, "base") || str_eq(name, "br") || str_eq(name, "col")
        || str_eq(name, "command") || str_eq(name, "embed") || str_eq(name, "hr") || str_eq(
        name,
        "img",
    ) || str_eq(name, "input") || str_eq(name, "keygen") || str_eq(name, "link") || str_eq(
        name,
        "menuitem",
    ) || str_eq(name, "meta") || str_eq(name, "param") || str_eq(name, "source") || str_eq(
        name,
        "track",
    ) || str_eq(name, "wbr") {
        TagKind::SelfTerminating
    } else if !name.is_empty() && name.get_char(0) == '/' {
        TagKind::Closing
    } else {
        TagKind::Opening
    }
}

/// The set of characters stripped from an attribute name.
pub open spec fn pad_chars() -> Seq<char> {
    " ="@
}

/// The attribute map carried after a tag name: quote-delimited chunks, the
/// even-indexed ones names, the odd-indexed ones values.  An even chunk count
/// means the final value never closed: the tag is malformed.
pub open spec fn tag_attrs_spec(content: Seq<char>) -> Option<Seq<(Seq<char>, Seq<char>)>> {
    let chunks = split_spec(content, "\""@);
    if chunks.len() % 2 == 0 {
        None
    } else {
        Some(attrs_build(chunks, (chunks.len() / 2) as nat))
    }
}

/// The first `k` name/value pairs of the chunk list, inserted in order.
pub open spec fn attrs_build(chunks: Seq<Seq<char>>, k: nat) -> Seq<(Seq<char>, Seq<char>)>
    decreases k,
{
    if k == 0 {
        Seq::empty()
    } else {
        attrs_insert(
            attrs_build(chunks, (k - 1) as nat),
            trim_set_spec(chunks[2 * (k - 1)], pad_chars()),
            trim_spec(chunks[2 * k - 1]),
        )
    }
}

/// What tokenizing a tag yields: the text before the first space is the
/// name; the remainder is the attribute map.  `None` is a malformed tag.
pub open spec fn tag_spec(s: Seq<char>) -> Option<TagView> {
    match find_char_from(s, ' ', 0) {
        Some(i) => match tag_attrs_spec(s.skip(i + 1)) {
            None => None,
            Some(attrs) => Some(
                TagView { name: s.take(i), kind: tag_kind_spec(s.take(i)), attributes: attrs },
            ),
        },
        None => Some(TagView { name: s, kind: tag_kind_spec(s), attributes: Seq::empty() }),
    }
}

impl Tag {
    /// Tokenizes the text between `<` and `>`.
    ///
    /// Fails with `MalformedTag` exactly when an attribute value is left
    /// unterminated.
    pub fn parse(data: &str) -> (r: Result<Tag, Herr>)
        ensures
            match r {
                Ok(t) => tag_spec(data@) == Some(t@),
                Err(e) => tag_spec(data@) is None && e == Herr::MalformedTag,
            },
    {
        match find_char(data, ' ') {
            Some(i) => {
                let n = data.unicode_len();
                let name = data.substring_char(0, i);
                let content = data.substring_char(i + 1, n);
                proof {
                    reveal_strlit("\"");
                    assert(name@ =~= data@.take(i as int));
                    assert(content@ =~= data@.skip(i + 1));
                }
                let chunks = split_all(content, "\"");
                if chunks.len() % 2 == 0 {
                    return Err(Herr::MalformedTag);
                }
                let n_attrs = chunks.len() / 2;
                let mut attributes: Vec<(String, String)> = Vec::new();
                let mut k: usize = 0;
                proof {
                    assert(attrs_view(attributes@) =~= attrs_build(views(chunks@), 0));
                }
                while k < n_attrs
                    invariant
                        n_attrs == views(chunks@).len() / 2,
                        chunks@.len() == views(chunks@).len(),
                        k <= n_attrs,
                        attrs_view(attributes@) == attrs_build(views(chunks@), k as nat),
                    decreases n_attrs - k,
                {
                    let nm = trim_set_str(chunks[2 * k].as_str(), " =");
                    let vl = trim(chunks[2 * k + 1].as_str());
                    proof {
                        reveal_strlit(" =");
                        reveal_strlit(" \n\t\r");
                        assert(chunks@[2 * k]@ == views(chunks@)[2 * k]);
                        assert(chunks@[2 * k + 1]@ == views(chunks@)[2 * k + 1]);
                    }
                    insert_attr(&mut attributes, String::from_str(nm), String::from_str(vl));
                    k = k + 1;
                }
                let kind = kind_of(name);
                Ok(Tag { name: String::from_str(name), kind, attributes })
            },
            None => {
                let kind = kind_of(data);
                proof {
                    assert(attrs_view(Seq::<(String, String)>::empty()) =~= Seq::<(
                        Seq<char>,
                        Seq<char>,
                    )>::empty());
                }
                Ok(Tag { name: String::from_str(data), kind, attributes: Vec::new() })
            },
        }
    }
}

} // verus!
