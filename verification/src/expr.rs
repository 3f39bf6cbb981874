//! Symbolic expressions: the uniform representation of code and data.

use vstd::prelude::*;
use vstd::std_specs::cmp::PartialEqSpecImpl;

verus! {

/// The mathematical value of an expression: what contracts speak of.
pub enum Sexp {
    Nil,
    Atom(Seq<char>),
    List(Seq<Sexp>),
}

impl Sexp {
    /// The list without elements.
    pub open spec fn empty_list() -> Sexp {
        Sexp::List(Seq::empty())
    }

    /// The symbol that stands for "true".
    pub open spec fn truth() -> Sexp {
        Sexp::Atom("t"@)
    }

    /// The truth symbol for `true`, the empty list for `false`.
    pub open spec fn from_bool(b: bool) -> Sexp {
        if b {
            Sexp::truth()
        } else {
            Sexp::empty_list()
        }
    }

    /// Whether `Nil` occurs nowhere in the expression.
    pub open spec fn is_nil_free(self) -> bool
        decreases self,
    {
        match self {
            Sexp::Nil => false,
            Sexp::Atom(_) => true,
            Sexp::List(items) => forall|i: int|
                0 <= i < items.len() ==> (#[trigger] items[i]).is_nil_free(),
        }
    }

    /// The text of the expression: nothing for `Nil`, its text for an atom,
    /// and for a list the texts of its elements, separated by single
    /// spaces, between parentheses.
    pub open spec fn render(self) -> Seq<char>
        decreases self,
    {
        match self {
            Sexp::Nil => Seq::empty(),
            Sexp::Atom(text) => text,
            Sexp::List(items) => seq!['('] + render_items(items) + seq![')'],
        }
    }
}

/// The texts of `items`, separated by single spaces.
pub open spec fn render_items(items: Seq<Sexp>) -> Seq<char>
    decreases items,
{
    if items.len() == 0 {
        Seq::empty()
    } else if items.len() == 1 {
        items[0].render()
    } else {
        render_items(items.drop_last()) + seq![' '] + items.last().render()
    }
}

/// A symbolic expression. Both programs and the data they work on are values
/// of this type.
#[derive(Debug)]
pub enum Expression {
    /// The absence of a value; distinct from the empty list.
    Nil,
    /// A symbol, carrying its text.
    Atom(String),
    /// An ordered list of expressions.
    List(Vec<Expression>),
}

/// The short name of `Expression`.
pub type Expr = Expression;

/// The values of a sequence of expressions, in order.
pub open spec fn views(items: Seq<Expression>) -> Seq<Sexp> {
    Seq::new(items.len(), |i: int| items[i]@)
}

/// The texts of a sequence of strings, in order.
pub open spec fn texts(names: Seq<String>) -> Seq<Seq<char>> {
    Seq::new(names.len(), |i: int| names[i]@)
}

impl View for Expression {
    type V = Sexp;

    open spec fn view(&self) -> Sexp
        decreases self,
    {
        match self {
            Expression::Nil => Sexp::Nil,
            Expression::Atom(s) => Sexp::Atom(s@),
            Expression::List(v) => Sexp::List(
                Seq::new(
                    v.len() as nat,
                    |i: int|
                        if 0 <= i < v.len() {
                            v[i]@
                        } else {
                            Sexp::Nil
                        },
                ),
            ),
        }
    }
}

/// The value of a list is the list of its elements' values.
pub broadcast proof fn lemma_view_list(v: Vec<Expression>)
    ensures
        #[trigger] Expression::List(v)@ == Sexp::List(views(v@)),
{
    assert(Expression::List(v)@->List_0 =~= views(v@));
}

/// Appending an element appends its value.
pub broadcast proof fn lemma_views_push(items: Seq<Expression>, e: Expression)
    ensures
        #[trigger] views(items.push(e)) == views(items).push(e@),
{
    assert(views(items.push(e)) =~= views(items).push(e@));
}

impl Expression {
    /// Whether the expression is the list without elements.
    pub fn is_empty_list(&self) -> (r: bool)
        ensures
            r == (self@ == Sexp::empty_list()),
    {
        broadcast use lemma_view_list;

        match self {
            Expression::List(v) => {
                assert(views(v@).len() == 0 <==> views(v@) =~= Seq::<Sexp>::empty());
                v.len() == 0
            },
            _ => false,
        }
    }

    /// The list without elements.
    pub fn empty_list() -> (r: Expression)
        ensures
            r@ == Sexp::empty_list(),
    {
        broadcast use lemma_view_list;

        let v: Vec<Expression> = Vec::new();
        assert(views(v@) =~= Seq::<Sexp>::empty());
        Expression::List(v)
    }

    /// The symbol with the given text.
    pub fn symbol(name: &str) -> (r: Expression)
        ensures
            r@ == Sexp::Atom(name@),
    {
        Expression::Atom(name.to_owned())
    }

    pub fn is_nil(&self) -> (r: bool)
        ensures
            r == (self@ is Nil),
    {
        match self {
            Expression::Nil => true,
            _ => false,
        }
    }

    pub fn is_atom(&self) -> (r: bool)
        ensures
            r == (self@ is Atom),
    {
        match self {
            Expression::Atom(_) => true,
            _ => false,
        }
    }

    pub fn is_list(&self) -> (r: bool)
        ensures
            r == (self@ is List),
    {
        match self {
            Expression::List(_) => true,
            _ => false,
        }
    }

    /// The text of an atom.
    pub fn get_ref_atom(&self) -> (r: &String)
        requires
            self@ is Atom,
        ensures
            r@ == self@->Atom_0,
            *self == Expression::Atom(*r),
    {
        match self {
            Expression::Atom(val) => val,
            _ => unreached(),
        }
    }

    /// The elements of a list.
    pub fn get_ref_list(&self) -> (r: &Vec<Expression>)
        requires
            self@ is List,
        ensures
            views(r@) == self@->List_0,
            *self == Expression::List(*r),
    {
        broadcast use lemma_view_list;

        match self {
            Expression::List(val) => val,
            _ => unreached(),
        }
    }

    /// The text of an atom, taking the expression apart.
    pub fn unwrap_atom(self) -> (r: String)
        requires
            self@ is Atom,
        ensures
            r@ == self@->Atom_0,
            self == Expression::Atom(r),
    {
        match self {
            Expression::Atom(val) => val,
            _ => unreached(),
        }
    }

    /// The elements of a list, taking the expression apart.
    pub fn unwrap_list(self) -> (r: Vec<Expression>)
        requires
            self@ is List,
        ensures
            views(r@) == self@->List_0,
            self == Expression::List(r),
    {
        broadcast use lemma_view_list;

        match self {
            Expression::List(val) => val,
            _ => unreached(),
        }
    }
}

impl Expression {
    /// The text of the expression.
    pub fn render(&self) -> (r: String)
        ensures
            r@ == self@.render(),
    {
        let mut out = String::new();
        self.render_into(&mut out);
        assert(Seq::<char>::empty() + self@.render() =~= self@.render());
        out
    }

    /// Appends the text of the expression to `out`.
    fn render_into(&self, out: &mut String)
        ensures
            final(out)@ == old(out)@ + self@.render(),
        decreases self,
    {
        broadcast use lemma_view_list;

        let ghost start = out@;
        match self {
            Expression::Nil => {
                assert(start + Seq::<char>::empty() =~= start);
            },
            Expression::Atom(text) => {
                out.append(text.as_str());
            },
            Expression::List(v) => {
                proof {
                    reveal_strlit("(");
                    reveal_strlit(" ");
                    reveal_strlit(")");
                }
                out.append("(");
                assert(out@ =~= start + seq!['(']);
                let ghost items = views(v@);
                let mut i: usize = 0;
                assert(items.take(0) =~= Seq::<Sexp>::empty());
                while i < v.len()
                    invariant
                        self is List,
                        self->List_0 == *v,
                        items == views(v@),
                        i <= v.len(),
                        " "@ == seq![' '],
                        out@ == start + seq!['('] + render_items(items.take(i as int)),
                    decreases v.len() - i,
                {
                    let ghost before = out@;
                    let ghost done = render_items(items.take(i as int));
                    if i > 0 {
                        out.append(" ");
                    }
                    assert(decreases_to!(*v => v[i as int]));
                    v[i].render_into(out);
                    proof {
                        let next = items.take(i + 1);
                        assert(next.drop_last() =~= items.take(i as int));
                        assert(next.last() == v[i as int]@);
                        if i == 0 {
                            assert(done =~= Seq::<char>::empty());
                            assert(out@ =~= start + seq!['('] + render_items(next));
                        } else {
                            assert(out@ =~= start + seq!['('] + (done + seq![' ']
                                + v[i as int]@.render()));
                        }
                    }
                    i += 1;
                }
                assert(items.take(i as int) =~= items);
                out.append(")");
                assert(out@ =~= start + (seq!['('] + render_items(items) + seq![')']));
            },
        }
    }
}

impl Clone for Expression {
    /// A deep copy: the copy has the same value.
    fn clone(&self) -> (r: Self)
        ensures
            r@ == self@,
        decreases self,
    {
        broadcast use lemma_view_list;

        match self {
            Expression::Nil => Expression::Nil,
            Expression::Atom(s) => Expression::Atom(s.clone()),
            Expression::List(v) => {
                let mut out: Vec<Expression> = Vec::new();
                let mut i: usize = 0;
                while i < v.len()
                    invariant
                        self is List,
                        self->List_0 == *v,
                        i <= v.len(),
                        out.len() == i,
                        forall|j: int| 0 <= j < i ==> out[j]@ == v[j]@,
                    decreases v.len() - i,
                {
                    assert(decreases_to!(*v => v[i as int]));
                    out.push(v[i].clone());
                    i += 1;
                }
                assert(views(out@) =~= views(v@));
                Expression::List(out)
            },
        }
    }
}

impl PartialEq for Expression {
    /// Structural equality: same variant, same text, equal elements in order.
    fn eq(&self, other: &Expression) -> (r: bool)
        decreases self,
    {
        broadcast use lemma_view_list;

        match (self, other) {
            (Expression::Nil, Expression::Nil) => true,
            (Expression::Atom(a), Expression::Atom(b)) => *a == *b,
            (Expression::List(a), Expression::List(b)) => {
                if a.len() != b.len() {
                    assert(views(a@).len() != views(b@).len());
                    return false;
                }
                let mut i: usize = 0;
                while i < a.len()
                    invariant
                        self is List,
                        self->List_0 == *a,
                        self@ == Sexp::List(views(a@)),
                        other@ == Sexp::List(views(b@)),
                        i <= a.len(),
                        a.len() == b.len(),
                        forall|j: int| 0 <= j < i ==> a[j]@ == b[j]@,
                    decreases a.len() - i,
                {
                    assert(decreases_to!(*a => a[i as int]));
                    if !a[i].eq(&b[i]) {
                        assert(views(a@)[i as int] != views(b@)[i as int]);
                        return false;
                    }
                    i += 1;
                }
                assert(views(a@) =~= views(b@));
                true
            },
            _ => false,
        }
    }
}

impl PartialEqSpecImpl for Expression {
    open spec fn obeys_eq_spec() -> bool {
        true
    }

    open spec fn eq_spec(&self, other: &Expression) -> bool {
        self@ == other@
    }
}

impl Eq for Expression {

}

} // verus!
