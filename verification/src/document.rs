//! The document model: a typed tree of elements, document metadata, and a
//! table of text macros, together with the ghost mirror types that contracts
//! speak about.

use vstd::prelude::*;

verus! {

/// Purely descriptive text decoration; an absent field means "inherit the
/// default".
#[derive(Debug)]
pub struct Style {
    pub font: Option<String>,
    pub font_size: Option<u32>,
    pub color: Option<String>,
    pub bold: bool,
    pub italic: bool,
}

/// A heading that opens a section of the document.
#[derive(Debug)]
pub struct Section {
    pub title: String,
    pub label: Option<String>,
}

/// A heading one level below a section.
#[derive(Debug)]
pub struct Subsection {
    pub title: String,
    pub label: Option<String>,
}

/// A run of free text, wrapped into lines by the layout engine.
#[derive(Debug)]
pub struct Paragraph {
    pub text: String,
    pub style: Option<Style>,
}

/// The closed set of document elements.
#[derive(Debug)]
pub enum DocumentElement {
    Section(Section),
    Subsection(Subsection),
    Paragraph(Paragraph),
}

/// A parsed document: metadata, elements in document order, and the macro
/// table, in definition order with unique names: a later definition of a
/// name replaces the earlier one.
#[derive(Debug)]
pub struct Document {
    pub title: Option<String>,
    pub author: Option<String>,
    pub date: Option<String>,
    pub elements: Vec<DocumentElement>,
    pub macros: Vec<(String, String)>,
}

/// Ghost mirror of `Style`.
pub ghost struct StyleSpec {
    pub font: Option<Seq<char>>,
    pub font_size: Option<u32>,
    pub color: Option<Seq<char>>,
    pub bold: bool,
    pub italic: bool,
}

/// Ghost mirror of `DocumentElement`.
pub ghost enum ElemSpec {
    Section { title: Seq<char>, label: Option<Seq<char>> },
    Subsection { title: Seq<char>, label: Option<Seq<char>> },
    Paragraph { text: Seq<char>, style: Option<StyleSpec> },
}

/// Ghost mirror of `Document`.
pub ghost struct DocSpec {
    pub title: Option<Seq<char>>,
    pub author: Option<Seq<char>>,
    pub date: Option<Seq<char>>,
    pub elements: Seq<ElemSpec>,
    pub macros: Seq<(Seq<char>, Seq<char>)>,
}

impl View for Style {
    type V = StyleSpec;

    open spec fn view(&self) -> StyleSpec {
        StyleSpec {
            font: self.font.deep_view(),
            font_size: self.font_size,
            color: self.color.deep_view(),
            bold: self.bold,
            italic: self.italic,
        }
    }
}

impl View for DocumentElement {
    type V = ElemSpec;

    open spec fn view(&self) -> ElemSpec {
        match self {
            DocumentElement::Section(s) => ElemSpec::Section {
                title: s.title@,
                label: s.label.deep_view(),
            },
            DocumentElement::Subsection(s) => ElemSpec::Subsection {
                title: s.title@,
                label: s.label.deep_view(),
            },
            DocumentElement::Paragraph(p) => ElemSpec::Paragraph {
                text: p.text@,
                style: match p.style {
                    Some(st) => Some(st@),
                    None => None,
                },
            },
        }
    }
}

/// The view of a macro table: each entry as a pair of character sequences, in
/// definition order.
pub open spec fn macros_view(ms: Seq<(String, String)>) -> Seq<(Seq<char>, Seq<char>)> {
    ms.map_values(|p: (String, String)| (p.0@, p.1@))
}

impl View for Document {
    type V = DocSpec;

    open spec fn view(&self) -> DocSpec {
        DocSpec {
            title: self.title.deep_view(),
            author: self.author.deep_view(),
            date: self.date.deep_view(),
            elements: self.elements@.map_values(|e: DocumentElement| e@),
            macros: macros_view(self.macros@),
        }
    }
}

/// The view of a document with no metadata, no elements and no macros.
pub open spec fn empty_docspec() -> DocSpec {
    DocSpec {
        title: None,
        author: None,
        date: None,
        elements: Seq::<ElemSpec>::empty(),
        macros: Seq::<(Seq<char>, Seq<char>)>::empty(),
    }
}

/// The view of a document holding nothing but a pre-seeded macro table.
pub open spec fn seeded_docspec(ms: Seq<(Seq<char>, Seq<char>)>) -> DocSpec {
    DocSpec { macros: ms, ..empty_docspec() }
}

/// The table with every definition of `name` removed, other entries kept in
/// order.
pub open spec fn remove_macro(ms: Seq<(Seq<char>, Seq<char>)>, name: Seq<char>) -> Seq<
    (Seq<char>, Seq<char>),
>
    decreases ms.len(),
{
    if ms.len() == 0 {
        Seq::empty()
    } else if ms.last().0 == name {
        remove_macro(ms.drop_last(), name)
    } else {
        remove_macro(ms.drop_last(), name).push(ms.last())
    }
}

/// What a macro name resolves to in a table: the value of the latest
/// definition of that name, or `None` if the name was never defined.
pub open spec fn macro_lookup(ms: Seq<(Seq<char>, Seq<char>)>, name: Seq<char>) -> Option<
    Seq<char>,
>
    decreases ms.len(),
{
    if ms.len() == 0 {
        None
    } else if ms.last().0 == name {
        Some(ms.last().1)
    } else {
        macro_lookup(ms.drop_last(), name)
    }
}

impl Document {
    /// An empty document: no metadata, no elements, no macros.
    pub fn new() -> (r: Document)
        ensures
            r@ == empty_docspec(),
    {
        let d = Document {
            title: None,
            author: None,
            date: None,
            elements: Vec::new(),
            macros: Vec::new(),
        };
        proof {
            assert(d@.elements =~= Seq::<ElemSpec>::empty());
            assert(d@.macros =~= Seq::<(Seq<char>, Seq<char>)>::empty());
        }
        d
    }

    /// Appends one element at the end of the document, touching nothing else.
    pub fn add_element(&mut self, element: DocumentElement)
        ensures
            final(self)@ == (DocSpec {
                elements: old(self)@.elements.push(element@),
                ..old(self)@
            }),
    {
        let ghost prior = self@;
        self.elements.push(element);
        proof {
            assert(final(self)@.elements =~= prior.elements.push(element@));
        }
    }

    /// Sets the document title, touching nothing else.
    pub fn set_title(&mut self, title: String)
        ensures
            final(self)@ == (DocSpec { title: Some(title@), ..old(self)@ }),
    {
        self.title = Some(title);
    }

    /// Sets the document author, touching nothing else.
    pub fn set_author(&mut self, author: String)
        ensures
            final(self)@ == (DocSpec { author: Some(author@), ..old(self)@ }),
    {
        self.author = Some(author);
    }

    /// Sets the document date, touching nothing else.
    pub fn set_date(&mut self, date: String)
        ensures
            final(self)@ == (DocSpec { date: Some(date@), ..old(self)@ }),
    {
        self.date = Some(date);
    }

    /// Defines (or redefines) a macro: any earlier definition of the name is
    /// dropped — keys stay unique — and the new entry is appended, so the
    /// name now resolves to the new value.
    pub fn define_macro(&mut self, name: String, value: String)
        ensures
            final(self)@ == (DocSpec {
                macros: remove_macro(old(self)@.macros, name@).push((name@, value@)),
                ..old(self)@
            }),
    {
        let ghost prior = self@;
        let ghost ms = prior.macros;
        let ghost pair = (name@, value@);
        let mut kept: Vec<(String, String)> = Vec::new();
        let n = self.macros.len();
        proof {
            assert(ms.subrange(0, 0) =~= Seq::<(Seq<char>, Seq<char>)>::empty());
        }
        let mut i: usize = 0;
        while i < n
            invariant
                self@ == prior,
                n == self.macros.len(),
                ms == prior.macros,
                ms.len() == n,
                i <= n,
                macros_view(kept@) == remove_macro(ms.subrange(0, i as int), name@),
            decreases n - i,
        {
            proof {
                let sub = ms.subrange(0, i as int + 1);
                assert(sub.last() == ms[i as int]);
                assert(sub.drop_last() =~= ms.subrange(0, i as int));
            }
            let entry = &self.macros[i];
            if !crate::text::str_eq(entry.0.as_str(), name.as_str()) {
                let ghost kept_before = macros_view(kept@);
                kept.push((entry.0.clone(), entry.1.clone()));
                proof {
                    assert(macros_view(kept@) =~= kept_before.push(ms[i as int]));
                }
            }
            i = i + 1;
        }
        proof {
            assert(ms.subrange(0, n as int) =~= ms);
        }
        let ghost removed = macros_view(kept@);
        kept.push((name, value));
        proof {
            assert(macros_view(kept@) =~= removed.push(pair));
        }
        self.macros = kept;
    }

    /// Looks a macro name up: returns the value of its latest definition, or
    /// `None` when the name was never defined.
    pub fn get_macro(&self, name: &str) -> (r: Option<&String>)
        ensures
            match r {
                Some(v) => macro_lookup(self@.macros, name@) == Some(v@),
                None => macro_lookup(self@.macros, name@) is None,
            },
    {
        let ghost ms = self@.macros;
        let mut idx: usize = self.macros.len();
        proof {
            assert(ms.subrange(0, idx as int) =~= ms);
        }
        while idx > 0
            invariant
                idx <= self.macros.len(),
                ms == self@.macros,
                ms.len() == self.macros.len(),
                macro_lookup(ms, name@) == macro_lookup(ms.subrange(0, idx as int), name@),
            decreases idx,
        {
            idx = idx - 1;
            let entry_name: &String = &self.macros[idx].0;
            if crate::text::str_eq(entry_name.as_str(), name) {
                proof {
                    assert(ms.subrange(0, idx as int + 1).last() == ms[idx as int]);
                }
                return Some(&self.macros[idx].1);
            }
            proof {
                let sub = ms.subrange(0, idx as int + 1);
                assert(sub.last() == ms[idx as int]);
                assert(sub.drop_last() =~= ms.subrange(0, idx as int));
            }
        }
        proof {
            assert(ms.subrange(0, 0) =~= Seq::<(Seq<char>, Seq<char>)>::empty());
        }
        None
    }
}

/// Removing a name's definitions leaves every other name's resolution
/// unchanged, and leaves the removed name unresolved.
pub proof fn lemma_remove_macro_lookup(
    ms: Seq<(Seq<char>, Seq<char>)>,
    name: Seq<char>,
    other: Seq<char>,
)
    ensures
        other != name ==> macro_lookup(remove_macro(ms, name), other) == macro_lookup(ms, other),
        macro_lookup(remove_macro(ms, name), name) is None,
    decreases ms.len(),
{
    if ms.len() > 0 {
        lemma_remove_macro_lookup(ms.drop_last(), name, other);
        if ms.last().0 != name {
            let r = remove_macro(ms.drop_last(), name).push(ms.last());
            assert(r.last() == ms.last());
            assert(r.drop_last() =~= remove_macro(ms.drop_last(), name));
        }
    }
}

/// A later definition of a name shadows an earlier one, and leaves every
/// other name's resolution unchanged.
pub proof fn lemma_macro_define_shadows(
    ms: Seq<(Seq<char>, Seq<char>)>,
    name: Seq<char>,
    value: Seq<char>,
    other: Seq<char>,
)
    ensures
        macro_lookup(remove_macro(ms, name).push((name, value)), name) == Some(value),
        other != name ==> macro_lookup(remove_macro(ms, name).push((name, value)), other)
            == macro_lookup(ms, other),
{
    let pushed = remove_macro(ms, name).push((name, value));
    assert(pushed.last() == (name, value));
    assert(pushed.drop_last() =~= remove_macro(ms, name));
    lemma_remove_macro_lookup(ms, name, other);
}

} // verus!
