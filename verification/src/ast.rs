//! The AST node types and the free-variable analysis.

use vstd::prelude::*;

verus! {

/// A function literal: parameter names and a command sequence.  Evaluating
/// the commands in order yields the block's result (the value of the last
/// command, or the unit value if there are none).
#[derive(Debug, PartialEq)]
pub struct Block {
    pub params: Vec<String>,
    pub commands: Vec<Element>,
}

/// Identifiers of the built-in commands a host may register under a name.
#[derive(Debug, Clone, Copy, PartialEq, Eq, Structural)]
pub enum Internal {
    Add,
}

/// An AST expression node.
#[derive(Debug, PartialEq)]
pub enum Element {
    Variable(String),
    Bare(String),
    Number(i64),
    Assign(String, Box<Element>),
    Block(Block),
    Call(Vec<Element>),
}

/// The mathematical abstraction of an [`Element`]: the same tree with every
/// string replaced by its character sequence.
pub ghost enum ElemView {
    Variable(Seq<char>),
    Bare(Seq<char>),
    Number(i64),
    Assign(Seq<char>, Box<ElemView>),
    Block(BlockView),
    Call(Seq<ElemView>),
}

/// The mathematical abstraction of a [`Block`].
pub ghost struct BlockView {
    pub params: Seq<Seq<char>>,
    pub commands: Seq<ElemView>,
}

/// The view of a sequence of parameter names.
pub open spec fn names_view(names: Seq<String>) -> Seq<Seq<char>> {
    names.map_values(|s: String| s@)
}

pub open spec fn elem_view(e: Element) -> ElemView
    decreases e,
{
    match e {
        Element::Variable(s) => ElemView::Variable(s@),
        Element::Bare(s) => ElemView::Bare(s@),
        Element::Number(n) => ElemView::Number(n),
        Element::Assign(s, b) => ElemView::Assign(s@, Box::new(elem_view(*b))),
        Element::Block(b) => ElemView::Block(block_view(b)),
        Element::Call(elems) => ElemView::Call(elems_view(elems@)),
    }
}

pub open spec fn elems_view(s: Seq<Element>) -> Seq<ElemView>
    decreases s,
{
    if s.len() == 0 {
        Seq::empty()
    } else {
        elems_view(s.drop_last()).push(elem_view(s.last()))
    }
}

pub open spec fn block_view(b: Block) -> BlockView
    decreases b,
{
    BlockView { params: names_view(b.params@), commands: elems_view(b.commands@) }
}

/// What the free-variable analysis of one element yields: the names the
/// element references without having bound them, in order of occurrence, and
/// the known-name set as it stands for the element's later siblings.
pub ghost struct FreeVars {
    pub free: Seq<Seq<char>>,
    pub known: Seq<Seq<char>>,
}

/// Free-variable analysis of a single element against the names known so
/// far.  An assignment's right-hand side is analysed before its name joins
/// the known set, so the bound name is visible only to later siblings; a
/// nested block extends a private copy of the known set with its parameters,
/// so nothing a block binds leaks outward.
pub open spec fn fv_elem(e: ElemView, known: Seq<Seq<char>>) -> FreeVars
    decreases e,
{
    match e {
        ElemView::Variable(v) => FreeVars {
            free: if known.contains(v) { Seq::empty() } else { seq![v] },
            known: known,
        },
        ElemView::Bare(_) => FreeVars { free: Seq::empty(), known },
        ElemView::Number(_) => FreeVars { free: Seq::empty(), known },
        ElemView::Assign(v, b) => {
            let inner = fv_elem(*b, known);
            FreeVars { free: inner.free, known: inner.known.push(v) }
        },
        ElemView::Block(b) => FreeVars { free: fv_block(b, known), known },
        ElemView::Call(elems) => fv_elems(elems, known),
    }
}

/// Free-variable analysis of a command sequence: a fold that threads the
/// known-name set from each element to the next and concatenates the free
/// names in order.
pub open spec fn fv_elems(elems: Seq<ElemView>, known: Seq<Seq<char>>) -> FreeVars
    decreases elems,
{
    if elems.len() == 0 {
        FreeVars { free: Seq::empty(), known }
    } else {
        let first = fv_elem(elems.first(), known);
        let rest = fv_elems(elems.drop_first(), first.known);
        FreeVars { free: first.free + rest.free, known: rest.known }
    }
}

/// The free variables of a block: its commands analysed against the known
/// set extended with the block's parameters.  The extended set is private to
/// the block; the caller's known set is unchanged.
pub open spec fn fv_block(b: BlockView, known: Seq<Seq<char>>) -> Seq<Seq<char>>
    decreases b,
{
    fv_elems(b.commands, known + b.params).free
}

/// `elems_view` maps the sequence pointwise.
pub proof fn lemma_elems_view(s: Seq<Element>)
    ensures
        elems_view(s).len() == s.len(),
        forall|i: int| 0 <= i < s.len() ==> elems_view(s)[i] == elem_view(s[i]),
    decreases s,
{
    if s.len() > 0 {
        lemma_elems_view(s.drop_last());
    }
}

/// Whether a name occurs in a vector of names.
pub fn contains_name(names: &Vec<String>, name: &String) -> (r: bool)
    ensures
        r == names_view(names@).contains(name@),
{
    let mut i: usize = 0;
    while i < names.len()
        invariant
            i <= names.len(),
            forall|k: int| 0 <= k < i ==> names@[k]@ != name@,
        decreases names.len() - i,
    {
        if names[i] == *name {
            assert(names_view(names@)[i as int] == name@);
            return true;
        }
        i += 1;
    }
    assert forall|k: int| 0 <= k < names_view(names@).len() implies names_view(
        names@,
    )[k] != name@ by {
        assert(names_view(names@)[k] == names@[k]@);
    }
    false
}

/// A copy of a vector of names, equal to the original.
pub fn copy_names(names: &Vec<String>) -> (r: Vec<String>)
    ensures
        r@ == names@,
{
    let mut r: Vec<String> = Vec::new();
    let mut i: usize = 0;
    while i < names.len()
        invariant
            i <= names.len(),
            r@ =~= names@.take(i as int),
        decreases names.len() - i,
    {
        r.push(names[i].clone());
        i += 1;
    }
    assert(r@ =~= names@);
    r
}

/// A copy of an element, with the same view as the original.
pub fn copy_element(e: &Element) -> (r: Element)
    ensures
        elem_view(r) == elem_view(*e),
    decreases *e,
{
    match e {
        Element::Variable(s) => Element::Variable(s.clone()),
        Element::Bare(s) => Element::Bare(s.clone()),
        Element::Number(n) => Element::Number(*n),
        Element::Assign(s, b) => Element::Assign(s.clone(), Box::new(copy_element(b))),
        Element::Block(b) => Element::Block(copy_block(b)),
        Element::Call(elems) => Element::Call(copy_elements(elems)),
    }
}

/// A copy of an element vector, with the same view as the original.
pub fn copy_elements(elems: &Vec<Element>) -> (r: Vec<Element>)
    ensures
        elems_view(r@) == elems_view(elems@),
    decreases *elems,
{
    let mut r: Vec<Element> = Vec::new();
    let mut i: usize = 0;
    while i < elems.len()
        invariant
            i <= elems.len(),
            r@.len() == i,
            forall|k: int| 0 <= k < i ==> elem_view(#[trigger] r@[k]) == elem_view(elems@[k]),
        decreases elems.len() - i,
    {
        r.push(copy_element(&elems[i]));
        i += 1;
    }
    proof {
        lemma_elems_view(r@);
        lemma_elems_view(elems@);
        assert(elems_view(r@) =~= elems_view(elems@));
    }
    r
}

/// A copy of a block, with the same view as the original.
pub fn copy_block(b: &Block) -> (r: Block)
    ensures
        block_view(r) == block_view(*b),
    decreases *b,
{
    Block { params: copy_names(&b.params), commands: copy_elements(&b.commands) }
}

impl Block {
    /// An empty block: no parameters, no commands.
    pub fn new() -> (b: Self)
        ensures
            b.params@ == Seq::<String>::empty(),
            b.commands@ == Seq::<Element>::empty(),
    {
        let b = Self { params: Vec::new(), commands: Vec::new() };
        proof {
            assert(b.params@ =~= Seq::<String>::empty());
            assert(b.commands@ =~= Seq::<Element>::empty());
        }
        b
    }

    /// The free variables of the block against the names known so far.  The
    /// block extends a private copy of the known set with its parameters, so
    /// `known_variables` itself is left unchanged.
    pub fn get_free_variables(&self, known_variables: &mut Vec<String>) -> (free: Vec<String>)
        ensures
            final(known_variables)@ == old(known_variables)@,
            names_view(free@) == fv_block(
                block_view(*self),
                names_view(old(known_variables)@),
            ),
        decreases *self,
    {
        let mut known = copy_names(known_variables);
        let mut i: usize = 0;
        while i < self.params.len()
            invariant
                i <= self.params.len(),
                known@ =~= known_variables@ + self.params@.take(i as int),
            decreases self.params.len() - i,
    {
            known.push(self.params[i].clone());
            i += 1;
        }
        proof {
            assert(known@ =~= known_variables@ + self.params@);
            assert(names_view(known@) =~= names_view(known_variables@) + names_view(
                self.params@,
            ));
        }
        let mut free: Vec<String> = Vec::new();
        free_vars_of_sequence(&self.commands, &mut known, &mut free);
        proof {
            assert(names_view(free@) =~= Seq::<Seq<char>>::empty() + names_view(free@));
        }
        free
    }
}

impl Element {
    /// The names this element references without having bound them, in order
    /// of occurrence; `known_variables` is updated in place with the names
    /// the element binds for its later siblings.
    pub fn get_free_variables(&self, known_variables: &mut Vec<String>) -> (free: Vec<String>)
        ensures
            ({
                let r = fv_elem(elem_view(*self), names_view(old(known_variables)@));
                names_view(free@) == r.free && names_view(final(known_variables)@) == r.known
            }),
        decreases *self,
    {
        match self {
            Element::Variable(v) => {
                if contains_name(known_variables, v) {
                    let free: Vec<String> = Vec::new();
                    assert(names_view(free@) =~= Seq::<Seq<char>>::empty());
                    free
                } else {
                    let mut free: Vec<String> = Vec::new();
                    free.push(v.clone());
                    assert(names_view(free@) =~= seq![v@]);
                    free
                }
            },
            Element::Number(_) | Element::Bare(_) => {
                let free: Vec<String> = Vec::new();
                assert(names_view(free@) =~= Seq::<Seq<char>>::empty());
                free
            },
            Element::Assign(v, b) => {
                let free = b.get_free_variables(known_variables);
                known_variables.push(v.clone());
                proof {
                    let inner = fv_elem(elem_view(**b), names_view(old(known_variables)@));
                    assert(names_view(final(known_variables)@) =~= inner.known.push(v@));
                }
                free
            },
            Element::Block(b) => b.get_free_variables(known_variables),
            Element::Call(elems) => {
                let mut free: Vec<String> = Vec::new();
                free_vars_of_sequence(elems, known_variables, &mut free);
                proof {
                    assert(names_view(free@) =~= Seq::<Seq<char>>::empty() + names_view(free@));
                }
                free
            },
        }
    }
}

/// Analyses a command sequence left to right, threading `known_variables`
/// through the elements and appending the free names found to `acc`.
fn free_vars_of_sequence(
    elems: &Vec<Element>,
    known_variables: &mut Vec<String>,
    acc: &mut Vec<String>,
)
    ensures
        ({
            let r = fv_elems(elems_view(elems@), names_view(old(known_variables)@));
            names_view(final(acc)@) == names_view(old(acc)@) + r.free && names_view(
                final(known_variables)@,
            ) == r.known
        }),
    decreases *elems,
{
    proof {
        lemma_elems_view(elems@);
    }
    let ghost whole = fv_elems(elems_view(elems@), names_view(known_variables@));
    proof {
        assert(elems_view(elems@).skip(0) =~= elems_view(elems@));
    }
    let mut i: usize = 0;
    while i < elems.len()
        invariant
            i <= elems.len(),
            elems_view(elems@).len() == elems@.len(),
            forall|k: int|
                0 <= k < elems@.len() ==> elems_view(elems@)[k] == elem_view(elems@[k]),
            ({
                let rem = fv_elems(
                    elems_view(elems@).skip(i as int),
                    names_view(known_variables@),
                );
                names_view(old(acc)@) + whole.free == names_view(acc@) + rem.free
                    && whole.known == rem.known
            }),
        decreases elems.len() - i,
    {
        let ghost sv = elems_view(elems@);
        let ghost known_before = names_view(known_variables@);
        let ghost acc_before = acc@;
        let mut part = elems[i].get_free_variables(known_variables);
        let ghost partv = part@;
        proof {
            assert(sv.skip(i as int).first() == elem_view(elems@[i as int]));
            assert(sv.skip(i as int).drop_first() =~= sv.skip(i as int + 1));
        }
        acc.append(&mut part);
        proof {
            let first = fv_elem(sv[i as int], known_before);
            let rem = fv_elems(sv.skip(i as int), known_before);
            let rem2 = fv_elems(sv.skip(i as int + 1), first.known);
            assert(rem.free == first.free + rem2.free && rem.known == rem2.known);
            assert(names_view(acc@) =~= names_view(acc_before) + names_view(partv));
            assert(names_view(old(acc)@) + whole.free =~= names_view(acc@) + rem2.free);
        }
        i += 1;
    }
    proof {
        assert(fv_elems(elems_view(elems@).skip(elems@.len() as int), names_view(
            known_variables@,
        )).free =~= Seq::<Seq<char>>::empty());
        assert(names_view(final(acc)@) =~= names_view(old(acc)@) + fv_elems(
            elems_view(elems@),
            names_view(old(known_variables)@),
        ).free);
    }
}

} // verus!
