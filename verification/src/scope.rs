//! Variable scopes: the body's bindings and the current paragraph's.

use vstd::hash_map::StringHashMap;
use vstd::prelude::*;
use vstd::string::*;

verus! {

/// What a map from names to strings says: each name with the characters
/// of its value.
pub open spec fn as_text(bindings: Map<Seq<char>, String>) -> Map<Seq<char>, Seq<char>> {
    Map::new(|name: Seq<char>| bindings.contains_key(name), |name: Seq<char>| bindings[name]@)
}

/// One scope: a finite map from names to values.
pub struct Scope {
    /// The values by name, in a hash map.
    pub bindings: StringHashMap<String>,
}

impl View for Scope {
    type V = Map<Seq<char>, Seq<char>>;

    open spec fn view(&self) -> Map<Seq<char>, Seq<char>> {
        as_text(self.bindings@)
    }
}

impl Scope {
    /// A scope without bindings.
    pub fn new() -> (scope: Self)
        ensures
            scope@ == Map::<Seq<char>, Seq<char>>::empty(),
    {
        let scope = Scope { bindings: StringHashMap::new() };
        assert(scope@ =~= Map::<Seq<char>, Seq<char>>::empty());
        scope
    }

    /// Binds `name` to `value`; an earlier binding of `name` is replaced.
    pub fn define(&mut self, name: String, value: String)
        ensures
            final(self)@ == old(self)@.insert(name@, value@),
    {
        self.bindings.insert(name, value);
        assert(self@ =~= old(self)@.insert(name@, value@));
    }

    /// The value bound to `name`, if there is one.
    pub fn lookup(&self, name: &str) -> (r: Option<String>)
        ensures
            match r {
                Some(value) => self@.contains_key(name@) && value@ == self@[name@],
                None => !self@.contains_key(name@),
            },
    {
        match self.bindings.get(name) {
            Some(value) => Some(value.clone()),
            None => None,
        }
    }

    /// Forgets every binding.
    pub fn clear(&mut self)
        ensures
            final(self)@ == Map::<Seq<char>, Seq<char>>::empty(),
    {
        self.bindings.clear();
        assert(self@ =~= Map::<Seq<char>, Seq<char>>::empty());
    }
}

/// The bindings in force at a point of a document.
pub struct Bindings {
    /// Whether the point lies inside a paragraph.
    pub in_paragraph: bool,
    /// The bindings made outside any paragraph; they last to the end of the document.
    pub body: Map<Seq<char>, Seq<char>>,
    /// The bindings made inside the current paragraph.
    pub paragraph: Map<Seq<char>, Seq<char>>,
}

impl Bindings {
    /// No bindings, outside any paragraph: the start of a document.
    pub open spec fn start() -> Bindings {
        Bindings { in_paragraph: false, body: Map::empty(), paragraph: Map::empty() }
    }

    /// Outside a paragraph no paragraph binding is kept.
    pub open spec fn tidy(self) -> bool {
        !self.in_paragraph ==> self.paragraph == Map::<Seq<char>, Seq<char>>::empty()
    }

    /// A definition binds in the paragraph's scope inside a paragraph, else in the body's.
    pub open spec fn define(self, name: Seq<char>, value: Seq<char>) -> Bindings {
        if self.in_paragraph {
            Bindings { paragraph: self.paragraph.insert(name, value), ..self }
        } else {
            Bindings { body: self.body.insert(name, value), ..self }
        }
    }

    /// A use looks in the paragraph's scope first, if inside a paragraph, then in the body's.
    pub open spec fn resolve(self, name: Seq<char>) -> Option<Seq<char>> {
        if self.in_paragraph && self.paragraph.contains_key(name) {
            Some(self.paragraph[name])
        } else if self.body.contains_key(name) {
            Some(self.body[name])
        } else {
            None
        }
    }

    /// Entering a paragraph changes no binding.
    pub open spec fn enter_paragraph(self) -> Bindings {
        Bindings { in_paragraph: true, ..self }
    }

    /// Leaving a paragraph discards its bindings.
    pub open spec fn leave_paragraph(self) -> Bindings {
        Bindings { in_paragraph: false, paragraph: Map::empty(), ..self }
    }
}

/// A document starts tidy, and stays so whatever is defined, opened or closed.
pub proof fn lemma_tidy(b: Bindings, name: Seq<char>, value: Seq<char>)
    requires
        b.tidy(),
    ensures
        Bindings::start().tidy(),
        b.define(name, value).tidy(),
        b.enter_paragraph().tidy(),
        b.leave_paragraph().tidy(),
{
}

/// A definition is seen by a use that follows it in the same scope, and
/// a later definition of the same name replaces it.
pub proof fn lemma_definition_resolves(
    b: Bindings,
    name: Seq<char>,
    value: Seq<char>,
    later: Seq<char>,
)
    ensures
        b.define(name, value).resolve(name) == Some(value),
        b.define(name, value).define(name, later).resolve(name) == Some(later),
{
}

/// A variable defined inside a paragraph does not outlive the paragraph:
/// once it has closed, in the body as in any later paragraph, the name
/// resolves as the body's bindings alone say, and not at all if the body
/// has none for it.
pub proof fn lemma_paragraph_binding_ends(b: Bindings, name: Seq<char>, value: Seq<char>)
    requires
        b.in_paragraph,
    ensures
        b.define(name, value).leave_paragraph().body == b.body,
        b.define(name, value).leave_paragraph().paragraph == Map::<
            Seq<char>,
            Seq<char>,
        >::empty(),
        b.body.contains_key(name) ==> b.define(name, value).leave_paragraph().resolve(name)
            == Some(b.body[name]) && b.define(
            name,
            value,
        ).leave_paragraph().enter_paragraph().resolve(name) == Some(b.body[name]),
        !b.body.contains_key(name) ==> b.define(name, value).leave_paragraph().resolve(name)
            is None && b.define(name, value).leave_paragraph().enter_paragraph().resolve(name)
            is None,
{
}

/// A variable defined in the body is seen inside a paragraph, unless the
/// paragraph defines the name itself; the body's binding is back once
/// the paragraph has closed.
pub proof fn lemma_body_binding_reaches_paragraphs(
    b: Bindings,
    name: Seq<char>,
    value: Seq<char>,
    shadow: Seq<char>,
)
    requires
        !b.in_paragraph,
        b.tidy(),
    ensures
        b.define(name, value).enter_paragraph().resolve(name) == Some(value),
        b.define(name, value).enter_paragraph().define(name, shadow).resolve(name) == Some(
            shadow,
        ),
        b.define(name, value).enter_paragraph().define(name, shadow).leave_paragraph().resolve(
            name,
        ) == Some(value),
{
}

/// The body's scope and the current paragraph's.
pub struct ScopeChain {
    /// Whether a paragraph is open.
    pub in_paragraph: bool,
    /// The bindings made outside any paragraph.
    pub body: Scope,
    /// The bindings made inside the open paragraph.
    pub paragraph: Scope,
}

impl View for ScopeChain {
    type V = Bindings;

    open spec fn view(&self) -> Bindings {
        Bindings { in_paragraph: self.in_paragraph, body: self.body@, paragraph: self.paragraph@ }
    }
}

impl ScopeChain {
    /// No bindings, outside any paragraph.
    pub fn new() -> (chain: Self)
        ensures
            chain@ == Bindings::start(),
    {
        ScopeChain { in_paragraph: false, body: Scope::new(), paragraph: Scope::new() }
    }

    /// Binds `name` in the open paragraph's scope, or in the body's if none is open.
    pub fn define(&mut self, name: String, value: String)
        ensures
            final(self)@ == old(self)@.define(name@, value@),
    {
        if self.in_paragraph {
            self.paragraph.define(name, value);
        } else {
            self.body.define(name, value);
        }
    }

    /// The value that `name` stands for here, if it is bound.
    pub fn resolve(&self, name: &str) -> (r: Option<String>)
        ensures
            match r {
                Some(value) => self@.resolve(name@) == Some(value@),
                None => self@.resolve(name@) is None,
            },
    {
        if self.in_paragraph {
            match self.paragraph.lookup(name) {
                Some(value) => {
                    return Some(value);
                },
                None => {},
            }
        }
        self.body.lookup(name)
    }

    /// Opens a paragraph.
    pub fn enter_paragraph(&mut self)
        ensures
            final(self)@ == old(self)@.enter_paragraph(),
    {
        self.in_paragraph = true;
    }

    /// Closes the paragraph and discards its bindings.
    pub fn leave_paragraph(&mut self)
        ensures
            final(self)@ == old(self)@.leave_paragraph(),
    {
        self.in_paragraph = false;
        self.paragraph.clear();
    }
}

} // verus!
