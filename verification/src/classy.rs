//! A grammar of class definitions, with identifiers matched by a regular
//! expression:
//!
//! ```text
//! CLASS       = "class" _ <name:ID> "{" <members:{MEMBER}> "}"
//! MEMBER      = FIELD_DEFN / METHOD_DEFN
//! FIELD_DEFN  = _ <name:ID> ":" <ty:TYPE_REF> ";"
//! TYPE_REF    = _ <id:ID>
//! METHOD_DEFN = _ <name:ID> "(" <args:{TYPE_REF}> ")" "->" <ret:TYPE_REF> ";"
//! ID          = an identifier that is no keyword
//! ```
//!
//! `ID` is tried right where the cursor stands, so each sequence says with
//! `_`, the empty text, where white space may come before one: an exact text
//! skips the white space before it, and the empty text matches after any.

use std::rc::Rc;
use vstd::prelude::*;
use vstd::string::StringSliceAdditionalSpecFns;
use crate::cursor::{Input, ParseResult};
use crate::grammar::{words_bytes, Body, Grammar, Node};
use crate::packrat::Packrat;
use crate::symbol::{follows, matched, Symbol};
use crate::syntax::{BodyShape, Ranking, RuleShape, Shape, Syntax};
use crate::text::slice;
use crate::value::{lemma_list_tree, Tree, Value};

verus! {

/// The place of the rule `CLASS`.
pub const CLASS_RULE: usize = 0;

/// The place of the rule `MEMBER`.
pub const MEMBER_RULE: usize = 1;

/// The place of the rule `FIELD_DEFN`.
pub const FIELD_RULE: usize = 2;

/// The place of the rule `TYPE_REF`.
pub const TYPE_RULE: usize = 3;

/// The place of the rule `METHOD_DEFN`.
pub const METHOD_RULE: usize = 4;

/// The place of the rule `ID`.
pub const ID_RULE: usize = 5;

/// A class: its name and its members.
#[derive(Debug)]
pub struct ClassDefn<'input> {
    pub name: &'input str,
    pub members: Vec<Rc<MemberDefn<'input>>>,
}

/// A member of a class.
#[derive(Debug)]
pub enum MemberDefn<'input> {
    Field(Box<FieldDefn<'input>>),
    Method(Box<MethodDefn<'input>>),
}

/// A field: its name and its type.
#[derive(Debug)]
pub struct FieldDefn<'input> {
    pub name: &'input str,
    pub ty: TypeRef<'input>,
}

/// A method: its name, the types of its arguments, and the type it returns.
#[derive(Debug)]
pub struct MethodDefn<'input> {
    pub name: &'input str,
    pub arg_tys: Vec<TypeRef<'input>>,
    pub ret_ty: TypeRef<'input>,
}

/// A type, by its name.
#[derive(Clone, Copy, Debug)]
pub struct TypeRef<'input> {
    pub id: &'input str,
}

/// The model of a field: the bytes of its name and of its type.
pub struct FieldModel {
    pub name: Seq<u8>,
    pub ty: Seq<u8>,
}

/// The model of a method.
pub struct MethodModel {
    pub name: Seq<u8>,
    pub arg_tys: Seq<Seq<u8>>,
    pub ret_ty: Seq<u8>,
}

/// The model of a member.
pub enum MemberModel {
    Field(FieldModel),
    Method(MethodModel),
}

/// The model of a class.
pub struct ClassModel {
    pub name: Seq<u8>,
    pub members: Seq<MemberModel>,
}

/// The models of types, in order.
pub open spec fn type_views(tys: Seq<TypeRef>) -> Seq<Seq<u8>> {
    Seq::new(tys.len(), |i: int| tys[i]@)
}

/// The models of members, in order.
pub open spec fn member_views(all: Seq<Rc<MemberDefn>>) -> Seq<MemberModel> {
    Seq::new(all.len(), |i: int| all[i]@)
}

impl<'input> View for TypeRef<'input> {
    type V = Seq<u8>;

    open spec fn view(&self) -> Seq<u8> {
        self.id.spec_bytes()
    }
}

impl<'input> View for FieldDefn<'input> {
    type V = FieldModel;

    open spec fn view(&self) -> FieldModel {
        FieldModel { name: self.name.spec_bytes(), ty: self.ty@ }
    }
}

impl<'input> View for MethodDefn<'input> {
    type V = MethodModel;

    open spec fn view(&self) -> MethodModel {
        MethodModel {
            name: self.name.spec_bytes(),
            arg_tys: type_views(self.arg_tys@),
            ret_ty: self.ret_ty@,
        }
    }
}

impl<'input> View for MemberDefn<'input> {
    type V = MemberModel;

    open spec fn view(&self) -> MemberModel {
        match self {
            MemberDefn::Field(field) => MemberModel::Field(field@),
            MemberDefn::Method(method) => MemberModel::Method(method@),
        }
    }
}

impl<'input> View for ClassDefn<'input> {
    type V = ClassModel;

    open spec fn view(&self) -> ClassModel {
        ClassModel {
            name: self.name.spec_bytes(),
            members: member_views(self.members@),
        }
    }
}

/// The bytes of the text that a tree of one span covers.
pub open spec fn span(text: Seq<u8>, tree: Tree) -> Seq<u8> {
    match tree {
        Tree::Text { start, end } => text.subrange(start, end),
        _ => Seq::empty(),
    }
}

/// The type that a `TYPE_REF` names.
pub open spec fn type_ref(text: Seq<u8>, tree: Tree) -> Seq<u8> {
    match tree {
        Tree::Tuple(items) => if items.len() == 1 {
            span(text, items[0])
        } else {
            Seq::empty()
        },
        _ => Seq::empty(),
    }
}

/// The types that a repetition of `TYPE_REF` names.
pub open spec fn type_refs(text: Seq<u8>, tree: Tree) -> Seq<Seq<u8>> {
    match tree {
        Tree::List(items) => Seq::new(items.len(), |i: int| type_ref(text, items[i])),
        _ => Seq::empty(),
    }
}

/// The field of a `FIELD_DEFN`.
pub open spec fn field(text: Seq<u8>, tree: Tree) -> FieldModel {
    match tree {
        Tree::Tuple(items) => if items.len() == 2 {
            FieldModel { name: span(text, items[0]), ty: type_ref(text, items[1]) }
        } else {
            FieldModel { name: Seq::empty(), ty: Seq::empty() }
        },
        _ => FieldModel { name: Seq::empty(), ty: Seq::empty() },
    }
}

/// The method of a `METHOD_DEFN`.
pub open spec fn method(text: Seq<u8>, tree: Tree) -> MethodModel {
    match tree {
        Tree::Tuple(items) => if items.len() == 3 {
            MethodModel {
                name: span(text, items[0]),
                arg_tys: type_refs(text, items[1]),
                ret_ty: type_ref(text, items[2]),
            }
        } else {
            MethodModel { name: Seq::empty(), arg_tys: Seq::empty(), ret_ty: Seq::empty() }
        },
        _ => MethodModel { name: Seq::empty(), arg_tys: Seq::empty(), ret_ty: Seq::empty() },
    }
}

/// The member of a `MEMBER`: a field where the first alternative matched,
/// else a method.
pub open spec fn member(text: Seq<u8>, tree: Tree) -> MemberModel {
    match tree {
        Tree::Alt { index, value } => if index == 0 {
            MemberModel::Field(field(text, *value))
        } else {
            MemberModel::Method(method(text, *value))
        },
        _ => MemberModel::Field(field(text, tree)),
    }
}

/// The members of a repetition of `MEMBER`.
pub open spec fn members(text: Seq<u8>, tree: Tree) -> Seq<MemberModel> {
    match tree {
        Tree::List(items) => Seq::new(items.len(), |i: int| member(text, items[i])),
        _ => Seq::empty(),
    }
}

/// The class of a `CLASS`.
pub open spec fn class(text: Seq<u8>, tree: Tree) -> ClassModel {
    match tree {
        Tree::Tuple(items) => if items.len() == 2 {
            ClassModel { name: span(text, items[0]), members: members(text, items[1]) }
        } else {
            ClassModel { name: Seq::empty(), members: Seq::empty() }
        },
        _ => ClassModel { name: Seq::empty(), members: Seq::empty() },
    }
}

/// The empty text.
pub fn nothing<'input>() -> (part: &'input str)
    ensures
        part.spec_bytes() == Seq::<u8>::empty(),
{
    proof {
        reveal_strlit("");
        assert(""@ =~= Seq::<char>::empty());
        assert(vstd::utf8::encode_utf8(""@) =~= Seq::<u8>::empty());
    }
    ""
}

/// Borrows from `text` what a value of one span covers.
pub fn eval_span<'input>(text: &'input str, value: &Value) -> (part: &'input str)
    requires
        value@.within(text.spec_bytes()),
    ensures
        part.spec_bytes() == span(text.spec_bytes(), value@),
{
    match value.peel() {
        Value::Text { start, end } => slice(text, *start, *end),
        _ => nothing(),
    }
}

/// Reads the type of a `TYPE_REF`.
pub fn eval_type_ref<'input>(text: &'input str, value: &Value) -> (ty: TypeRef<'input>)
    requires
        value@.within(text.spec_bytes()),
    ensures
        ty@ == type_ref(text.spec_bytes(), value@),
{
    match value.peel() {
        Value::Tuple(items) => {
            proof {
                lemma_list_tree(*items);
            }
            if items.len() == 1 {
                assert(value@->Tuple_0[0].within(text.spec_bytes()));
                TypeRef { id: eval_span(text, &items[0]) }
            } else {
                TypeRef { id: nothing() }
            }
        },
        _ => TypeRef { id: nothing() },
    }
}

/// Reads the types of a repetition of `TYPE_REF`.
pub fn eval_type_refs<'input>(text: &'input str, value: &Value) -> (tys: Vec<TypeRef<'input>>)
    requires
        value@.within(text.spec_bytes()),
    ensures
        type_views(tys@) == type_refs(text.spec_bytes(), value@),
{
    let mut tys: Vec<TypeRef<'input>> = Vec::new();
    match value.peel() {
        Value::List(items) => {
            proof {
                lemma_list_tree(*items);
            }
            let mut i: usize = 0;
            while i < items.len()
                invariant
                    i <= items@.len(),
                    tys@.len() == i,
                    value@ == Tree::List(crate::value::trees(items@)),
                    value@.within(text.spec_bytes()),
                    forall|j: int|
                        0 <= j < i ==> tys@[j]@ == type_ref(text.spec_bytes(), items@[j]@),
                decreases items@.len() - i,
            {
                assert(value@->List_0[i as int].within(text.spec_bytes()));
                tys.push(eval_type_ref(text, &items[i]));
                i = i + 1;
            }
        },
        _ => {},
    }
    assert(type_views(tys@) =~= type_refs(text.spec_bytes(), value@));
    tys
}

/// Reads the field of a `FIELD_DEFN`.
pub fn eval_field<'input>(text: &'input str, value: &Value) -> (out: FieldDefn<'input>)
    requires
        value@.within(text.spec_bytes()),
    ensures
        out@ == field(text.spec_bytes(), value@),
{
    match value.peel() {
        Value::Tuple(items) => {
            proof {
                lemma_list_tree(*items);
            }
            if items.len() == 2 {
                assert(value@->Tuple_0[0].within(text.spec_bytes()));
                assert(value@->Tuple_0[1].within(text.spec_bytes()));
                FieldDefn {
                    name: eval_span(text, &items[0]),
                    ty: eval_type_ref(text, &items[1]),
                }
            } else {
                FieldDefn { name: nothing(), ty: TypeRef { id: nothing() } }
            }
        },
        _ => FieldDefn { name: nothing(), ty: TypeRef { id: nothing() } },
    }
}

/// A method without a name, arguments or type.
fn no_method<'input>() -> (out: MethodDefn<'input>)
    ensures
        out@ == (MethodModel { name: Seq::empty(), arg_tys: Seq::empty(), ret_ty: Seq::empty() }),
{
    let out = MethodDefn { name: nothing(), arg_tys: Vec::new(), ret_ty: TypeRef { id: nothing() } };
    assert(type_views(out.arg_tys@) =~= Seq::<Seq<u8>>::empty());
    out
}

/// A class without a name or members.
fn no_class<'input>() -> (out: Rc<ClassDefn<'input>>)
    ensures
        out@ == (ClassModel { name: Seq::empty(), members: Seq::empty() }),
{
    let out = ClassDefn { name: nothing(), members: Vec::new() };
    assert(member_views(out.members@) =~= Seq::<MemberModel>::empty());
    Rc::new(out)
}

/// Reads the method of a `METHOD_DEFN`.
pub fn eval_method<'input>(text: &'input str, value: &Value) -> (out: MethodDefn<'input>)
    requires
        value@.within(text.spec_bytes()),
    ensures
        out@ == method(text.spec_bytes(), value@),
{
    match value.peel() {
        Value::Tuple(items) => {
            proof {
                lemma_list_tree(*items);
            }
            if items.len() == 3 {
                assert(value@->Tuple_0[0].within(text.spec_bytes()));
                assert(value@->Tuple_0[1].within(text.spec_bytes()));
                assert(value@->Tuple_0[2].within(text.spec_bytes()));
                MethodDefn {
                    name: eval_span(text, &items[0]),
                    arg_tys: eval_type_refs(text, &items[1]),
                    ret_ty: eval_type_ref(text, &items[2]),
                }
            } else {
                no_method()
            }
        },
        _ => no_method(),
    }
}

/// Reads the member of a `MEMBER`.
pub fn eval_member<'input>(text: &'input str, value: &Value) -> (out: Rc<MemberDefn<'input>>)
    requires
        value@.within(text.spec_bytes()),
    ensures
        out@ == member(text.spec_bytes(), value@),
{
    match value.peel() {
        Value::Alt { index, value: inner } => {
            if *index == 0 {
                Rc::new(MemberDefn::Field(Box::new(eval_field(text, inner))))
            } else {
                Rc::new(MemberDefn::Method(Box::new(eval_method(text, inner))))
            }
        },
        _ => Rc::new(MemberDefn::Field(Box::new(eval_field(text, value)))),
    }
}

/// Reads the members of a repetition of `MEMBER`.
pub fn eval_members<'input>(text: &'input str, value: &Value) -> (all: Vec<
    Rc<MemberDefn<'input>>,
>)
    requires
        value@.within(text.spec_bytes()),
    ensures
        member_views(all@) == members(text.spec_bytes(), value@),
{
    let mut all: Vec<Rc<MemberDefn<'input>>> = Vec::new();
    match value.peel() {
        Value::List(items) => {
            proof {
                lemma_list_tree(*items);
            }
            let mut i: usize = 0;
            while i < items.len()
                invariant
                    i <= items@.len(),
                    all@.len() == i,
                    value@ == Tree::List(crate::value::trees(items@)),
                    value@.within(text.spec_bytes()),
                    forall|j: int|
                        0 <= j < i ==> all@[j]@ == member(text.spec_bytes(), items@[j]@),
                decreases items@.len() - i,
            {
                assert(value@->List_0[i as int].within(text.spec_bytes()));
                all.push(eval_member(text, &items[i]));
                i = i + 1;
            }
        },
        _ => {},
    }
    assert(member_views(all@) =~= members(text.spec_bytes(), value@));
    all
}

/// Reads the class of a `CLASS`.
pub fn eval_class<'input>(text: &'input str, value: &Value) -> (out: Rc<ClassDefn<'input>>)
    requires
        value@.within(text.spec_bytes()),
    ensures
        out@ == class(text.spec_bytes(), value@),
{
    match value.peel() {
        Value::Tuple(items) => {
            proof {
                lemma_list_tree(*items);
            }
            if items.len() == 2 {
                assert(value@->Tuple_0[0].within(text.spec_bytes()));
                assert(value@->Tuple_0[1].within(text.spec_bytes()));
                Rc::new(
                    ClassDefn {
                        name: eval_span(text, &items[0]),
                        members: eval_members(text, &items[1]),
                    },
                )
            } else {
                no_class()
            }
        },
        _ => no_class(),
    }
}

/// The data that the grammar shares between its symbols: the regular
/// expression of an identifier, and the words that are none.
#[derive(Debug)]
pub struct ClassyBase {
    identifier: &'static str,
    keywords: Vec<&'static str>,
}

impl ClassyBase {
    /// The regular expression.
    pub closed spec fn identifier(self) -> Seq<char> {
        self.identifier@
    }

    /// The keywords.
    pub closed spec fn keywords(self) -> Seq<&'static str> {
        self.keywords@
    }

    /// Identifiers start with a letter or `_` and go on with letters, digits
    /// and `_`; `class` is the one keyword. No other data can be made.
    #[verifier::type_invariant]
    closed spec fn standard(self) -> bool {
        &&& self.identifier@ == "^[a-zA-Z_][a-zA-Z_0-9]*"@
        &&& self.keywords@ == seq!["class"]
    }

    /// Identifiers start with a letter or `_` and go on with letters, digits
    /// and `_`; `class` is the one keyword.
    pub fn new() -> (base: ClassyBase)
        ensures
            base.identifier() == "^[a-zA-Z_][a-zA-Z_0-9]*"@,
            base.keywords() == seq!["class"],
    {
        let keywords = vec!["class"];
        assert(keywords@ =~= seq!["class"]);
        ClassyBase { identifier: "^[a-zA-Z_][a-zA-Z_0-9]*", keywords }
    }
}

/// The model of the grammar, for a regular expression and keywords.
pub open spec fn classy_syntax(identifier: Seq<char>, keywords: Seq<&'static str>) -> Syntax {
    Syntax {
        nodes: seq![
            Shape::Text("class"@),
            Shape::Text(""@),
            Shape::Symbol(ID_RULE),
            Shape::Elem(2),
            Shape::Text("{"@),
            Shape::Symbol(MEMBER_RULE),
            Shape::Repeat(5),
            Shape::Elem(6),
            Shape::Text("}"@),
            Shape::Group(seq![0usize, 1usize, 3usize, 4usize, 7usize, 8usize]),
            Shape::Symbol(FIELD_RULE),
            Shape::Symbol(METHOD_RULE),
            Shape::Choice(seq![10usize, 11usize]),
            Shape::Text(":"@),
            Shape::Symbol(TYPE_RULE),
            Shape::Elem(14),
            Shape::Text(";"@),
            Shape::Group(seq![1usize, 3usize, 13usize, 15usize, 16usize]),
            Shape::Group(seq![1usize, 3usize]),
            Shape::Text("("@),
            Shape::Repeat(14),
            Shape::Elem(20),
            Shape::Text(")"@),
            Shape::Text("->"@),
            Shape::Group(
                seq![1usize, 3usize, 19usize, 21usize, 22usize, 23usize, 15usize, 16usize],
            ),
        ],
        rules: seq![
            RuleShape { name: "CLASS"@, body: BodyShape::Expr(9) },
            RuleShape { name: "MEMBER"@, body: BodyShape::Expr(12) },
            RuleShape { name: "FIELD_DEFN"@, body: BodyShape::Expr(17) },
            RuleShape { name: "TYPE_REF"@, body: BodyShape::Expr(18) },
            RuleShape { name: "METHOD_DEFN"@, body: BodyShape::Expr(24) },
            RuleShape {
                name: "ID"@,
                body: BodyShape::Pattern {
                    pattern: identifier,
                    keywords: words_bytes(keywords),
                    expected: "identifier"@,
                },
            },
        ],
    }
}

/// Levels that show the grammar free of left recursion: no rule leads back
/// to itself at all.
pub open spec fn classy_ranking() -> Ranking {
    Ranking {
        node_level: seq![
            0nat,
            0,
            1,
            2,
            0,
            13,
            14,
            15,
            0,
            16,
            9,
            10,
            11,
            0,
            5,
            6,
            0,
            7,
            3,
            0,
            6,
            7,
            0,
            0,
            8,
        ],
        rule_level: seq![17nat, 12, 8, 4, 9, 0],
        node_solid: Seq::new(25, |i: int| false),
        rule_solid: Seq::new(6, |i: int| false),
    }
}

/// The grammar has no left recursion, whatever the regular expression and
/// the keywords are.
pub proof fn lemma_classy_wf(identifier: Seq<char>, keywords: Seq<&'static str>)
    ensures
        classy_syntax(identifier, keywords).ranked_by(classy_ranking()),
        classy_syntax(identifier, keywords).wf(),
{
    let syn = classy_syntax(identifier, keywords);
    let rk = classy_ranking();
    assert(syn.node_ranked(rk, 0));
    assert(syn.node_ranked(rk, 1));
    assert(syn.node_ranked(rk, 2));
    assert(syn.node_ranked(rk, 3));
    assert(syn.node_ranked(rk, 4));
    assert(syn.node_ranked(rk, 5));
    assert(syn.node_ranked(rk, 6));
    assert(syn.node_ranked(rk, 7));
    assert(syn.node_ranked(rk, 8));
    assert(syn.node_ranked(rk, 9));
    assert(syn.node_ranked(rk, 10));
    assert(syn.node_ranked(rk, 11));
    assert(syn.node_ranked(rk, 12));
    assert(syn.node_ranked(rk, 13));
    assert(syn.node_ranked(rk, 14));
    assert(syn.node_ranked(rk, 15));
    assert(syn.node_ranked(rk, 16));
    assert(syn.node_ranked(rk, 17));
    assert(syn.node_ranked(rk, 18));
    assert(syn.node_ranked(rk, 19));
    assert(syn.node_ranked(rk, 20));
    assert(syn.node_ranked(rk, 21));
    assert(syn.node_ranked(rk, 22));
    assert(syn.node_ranked(rk, 23));
    assert(syn.node_ranked(rk, 24));
    assert(syn.rule_ranked(rk, 0));
    assert(syn.rule_ranked(rk, 1));
    assert(syn.rule_ranked(rk, 2));
    assert(syn.rule_ranked(rk, 3));
    assert(syn.rule_ranked(rk, 4));
    assert(syn.rule_ranked(rk, 5));
    assert(syn.ranked_by(rk));
}

/// The model of the grammar as `ClassyBase::new` makes it.
pub open spec fn standard_syntax() -> Syntax {
    classy_syntax("^[a-zA-Z_][a-zA-Z_0-9]*"@, seq!["class"])
}

impl ClassyBase {
    /// Builds the grammar.
    pub fn grammar<'input>(&self) -> (grammar: Grammar<'input>)
        ensures
            grammar@ == standard_syntax(),
    {
        proof {
            use_type_invariant(self);
        }
        let mut keywords: Vec<&'input str> = Vec::new();
        let mut i: usize = 0;
        while i < self.keywords.len()
            invariant
                i <= self.keywords@.len(),
                keywords@ == self.keywords@.subrange(0, i as int),
            decreases self.keywords@.len() - i,
        {
            keywords.push(self.keywords[i]);
            assert(keywords@ =~= self.keywords@.subrange(0, i + 1));
            i = i + 1;
        }
        assert(keywords@ =~= self.keywords@);
        let mut grammar = Grammar::new();
        grammar.add(Node::Text("class"));
        grammar.add(Node::Text(""));
        grammar.add(Node::Symbol(ID_RULE));
        grammar.add(Node::Elem(2));
        grammar.add(Node::Text("{"));
        grammar.add(Node::Symbol(MEMBER_RULE));
        grammar.add(Node::Repeat(5));
        grammar.add(Node::Elem(6));
        grammar.add(Node::Text("}"));
        grammar.add(Node::Group(vec![0, 1, 3, 4, 7, 8]));
        grammar.add(Node::Symbol(FIELD_RULE));
        grammar.add(Node::Symbol(METHOD_RULE));
        grammar.add(Node::Choice(vec![10, 11]));
        grammar.add(Node::Text(":"));
        grammar.add(Node::Symbol(TYPE_RULE));
        grammar.add(Node::Elem(14));
        grammar.add(Node::Text(";"));
        grammar.add(Node::Group(vec![1, 3, 13, 15, 16]));
        grammar.add(Node::Group(vec![1, 3]));
        grammar.add(Node::Text("("));
        grammar.add(Node::Repeat(14));
        grammar.add(Node::Elem(20));
        grammar.add(Node::Text(")"));
        grammar.add(Node::Text("->"));
        grammar.add(Node::Group(vec![1, 3, 19, 21, 22, 23, 15, 16]));
        grammar.rule("CLASS", Body::Expr(9));
        grammar.rule("MEMBER", Body::Expr(12));
        grammar.rule("FIELD_DEFN", Body::Expr(17));
        grammar.rule("TYPE_REF", Body::Expr(18));
        grammar.rule("METHOD_DEFN", Body::Expr(24));
        grammar.rule(
            "ID",
            Body::Pattern { pattern: self.identifier, keywords, expected: "identifier" },
        );
        assert(grammar@.nodes =~= standard_syntax().nodes);
        assert(grammar@.rules =~= standard_syntax().rules);
        grammar
    }
}

/// The context that the symbols of the grammar parse with: the grammar,
/// which holds the regular expression and the keywords, and its memo cache.
pub struct Classy<'input> {
    context: Packrat<'input>,
}

impl<'input> Classy<'input> {
    /// The grammar and its memo cache.
    pub closed spec fn context(self) -> Packrat<'input> {
        self.context
    }

    /// The cache holds outcomes in `text` only.
    pub open spec fn ready(self, text: Seq<u8>) -> bool {
        &&& self.context().syntax() == standard_syntax()
        &&& self.context().ready(text)
    }

    /// Nothing has been parsed yet.
    pub open spec fn fresh(self) -> bool {
        &&& self.context().syntax() == standard_syntax()
        &&& self.context().memo()@.len() == standard_syntax().rules.len()
        &&& self.context().memo().is_empty()
    }

    /// A context with an empty cache, ready for any text.
    pub fn new(base: ClassyBase) -> (parser: Classy<'input>)
        ensures
            parser.fresh(),
            forall|text: Seq<u8>| #[trigger] parser.ready(text),
    {
        let grammar = base.grammar();
        let context = Packrat::new(grammar);
        proof {
            lemma_classy_wf("^[a-zA-Z_][a-zA-Z_0-9]*"@, seq!["class"]);
        }
        Classy { context }
    }

    /// Parses the rule at `rule` from `input` on.
    fn apply(&mut self, rule: usize, input: Input<'input>) -> (result: ParseResult<
        'input,
        Value,
    >)
        requires
            old(self).ready(input.bytes()),
            rule < standard_syntax().rules.len(),
            input.wf(),
        ensures
            final(self).ready(input.bytes()),
            follows(standard_syntax(), rule as int, input, result),
            result matches Ok((rest, value)) ==> {
                &&& value@ == matched(standard_syntax(), rule as int, input)
                &&& value@.within(input.bytes())
                &&& rest.text == input.text
                &&& rest.wf()
                &&& rest.offset >= input.offset
            },
            result matches Err(error) ==> input.offset <= error.offset <= input.bytes().len(),
    {
        self.context.parse_rule(rule, input)
    }
}

/// The symbol `ID`: an identifier that is no keyword, borrowed from the
/// text. It is tried right where the cursor stands: a match is the text from
/// the cursor of the input to the cursor of the result, a failure lies at
/// the cursor of the input.
#[allow(non_camel_case_types)]
#[derive(Debug)]
pub struct ID;

impl<'input> Symbol<'input, Classy<'input>> for ID {
    type Output = &'input str;

    open spec fn ready(&self, grammar: Classy<'input>, text: Seq<u8>) -> bool {
        grammar.ready(text)
    }

    open spec fn denotes(
        &self,
        input: Input<'input>,
        result: ParseResult<'input, &'input str>,
    ) -> bool {
        &&& follows(standard_syntax(), ID_RULE as int, input, result)
        &&& result matches Ok((rest, out)) ==> {
            &&& out.spec_bytes() == input.bytes().subrange(
                input.offset as int,
                rest.offset as int,
            )
            &&& !words_bytes(seq!["class"]).contains(out.spec_bytes())
        }
        &&& result matches Err(error) ==> error.offset == input.offset && error.expected@
            == "identifier"@
    }

    fn pretty_print(&self) -> (text: String)
        ensures
            text@ == "ID"@,
    {
        "ID".to_owned()
    }

    fn parse(&self, grammar: &mut Classy<'input>, input: Input<'input>) -> (result: ParseResult<
        'input,
        &'input str,
    >) {
        match grammar.apply(ID_RULE, input) {
            Ok((rest, value)) => {
                let out = eval_span(input.text, &value);
                proof {
                    let bytes = input.bytes();
                    let tail = bytes.subrange(input.offset as int, bytes.len() as int);
                    assert(tail.subrange(0, rest.offset - input.offset) =~= bytes.subrange(
                        input.offset as int,
                        rest.offset as int,
                    ));
                }
                Ok((rest, out))
            },
            Err(error) => Err(error),
        }
    }
}

/// The symbol `CLASS`: the word `class`, a name, and members between braces.
#[allow(non_camel_case_types)]
#[derive(Debug)]
pub struct CLASS;

impl<'input> Symbol<'input, Classy<'input>> for CLASS {
    type Output = Rc<ClassDefn<'input>>;

    open spec fn ready(&self, grammar: Classy<'input>, text: Seq<u8>) -> bool {
        grammar.ready(text)
    }

    open spec fn denotes(
        &self,
        input: Input<'input>,
        result: ParseResult<'input, Rc<ClassDefn<'input>>>,
    ) -> bool {
        &&& follows(standard_syntax(), CLASS_RULE as int, input, result)
        &&& result matches Ok((_, out)) ==> out@
            == class(input.bytes(), matched(standard_syntax(), CLASS_RULE as int, input))
    }

    fn pretty_print(&self) -> (text: String)
        ensures
            text@ == "CLASS"@,
    {
        "CLASS".to_owned()
    }

    fn parse(&self, grammar: &mut Classy<'input>, input: Input<'input>) -> (result: ParseResult<
        'input,
        Rc<ClassDefn<'input>>,
    >) {
        match grammar.apply(CLASS_RULE, input) {
            Ok((rest, value)) => Ok((rest, eval_class(input.text, &value))),
            Err(error) => Err(error),
        }
    }
}

/// The symbol `MEMBER`: a field or else a method.
#[allow(non_camel_case_types)]
#[derive(Debug)]
pub struct MEMBER;

impl<'input> Symbol<'input, Classy<'input>> for MEMBER {
    type Output = Rc<MemberDefn<'input>>;

    open spec fn ready(&self, grammar: Classy<'input>, text: Seq<u8>) -> bool {
        grammar.ready(text)
    }

    open spec fn denotes(
        &self,
        input: Input<'input>,
        result: ParseResult<'input, Rc<MemberDefn<'input>>>,
    ) -> bool {
        &&& follows(standard_syntax(), MEMBER_RULE as int, input, result)
        &&& result matches Ok((_, out)) ==> out@
            == member(input.bytes(), matched(standard_syntax(), MEMBER_RULE as int, input))
    }

    fn pretty_print(&self) -> (text: String)
        ensures
            text@ == "MEMBER"@,
    {
        "MEMBER".to_owned()
    }

    fn parse(&self, grammar: &mut Classy<'input>, input: Input<'input>) -> (result: ParseResult<
        'input,
        Rc<MemberDefn<'input>>,
    >) {
        match grammar.apply(MEMBER_RULE, input) {
            Ok((rest, value)) => Ok((rest, eval_member(input.text, &value))),
            Err(error) => Err(error),
        }
    }
}

/// The symbol `FIELD_DEFN`: a name, `:`, a type and `;`.
#[allow(non_camel_case_types)]
#[derive(Debug)]
pub struct FIELD_DEFN;

impl<'input> Symbol<'input, Classy<'input>> for FIELD_DEFN {
    type Output = Rc<MemberDefn<'input>>;

    open spec fn ready(&self, grammar: Classy<'input>, text: Seq<u8>) -> bool {
        grammar.ready(text)
    }

    open spec fn denotes(
        &self,
        input: Input<'input>,
        result: ParseResult<'input, Rc<MemberDefn<'input>>>,
    ) -> bool {
        &&& follows(standard_syntax(), FIELD_RULE as int, input, result)
        &&& result matches Ok((_, out)) ==> out@
            == MemberModel::Field(
                field(input.bytes(), matched(standard_syntax(), FIELD_RULE as int, input)),
            )
    }

    fn pretty_print(&self) -> (text: String)
        ensures
            text@ == "FIELD_DEFN"@,
    {
        "FIELD_DEFN".to_owned()
    }

    fn parse(&self, grammar: &mut Classy<'input>, input: Input<'input>) -> (result: ParseResult<
        'input,
        Rc<MemberDefn<'input>>,
    >) {
        match grammar.apply(FIELD_RULE, input) {
            Ok((rest, value)) => {
                let out = Rc::new(MemberDefn::Field(Box::new(eval_field(input.text, &value))));
                Ok((rest, out))
            },
            Err(error) => Err(error),
        }
    }
}

/// The symbol `TYPE_REF`: a type, by its name.
#[allow(non_camel_case_types)]
#[derive(Debug)]
pub struct TYPE_REF;

impl<'input> Symbol<'input, Classy<'input>> for TYPE_REF {
    type Output = TypeRef<'input>;

    open spec fn ready(&self, grammar: Classy<'input>, text: Seq<u8>) -> bool {
        grammar.ready(text)
    }

    open spec fn denotes(
        &self,
        input: Input<'input>,
        result: ParseResult<'input, TypeRef<'input>>,
    ) -> bool {
        &&& follows(standard_syntax(), TYPE_RULE as int, input, result)
        &&& result matches Ok((_, out)) ==> out@
            == type_ref(input.bytes(), matched(standard_syntax(), TYPE_RULE as int, input))
    }

    fn pretty_print(&self) -> (text: String)
        ensures
            text@ == "TYPE_REF"@,
    {
        "TYPE_REF".to_owned()
    }

    fn parse(&self, grammar: &mut Classy<'input>, input: Input<'input>) -> (result: ParseResult<
        'input,
        TypeRef<'input>,
    >) {
        match grammar.apply(TYPE_RULE, input) {
            Ok((rest, value)) => Ok((rest, eval_type_ref(input.text, &value))),
            Err(error) => Err(error),
        }
    }
}

/// The symbol `METHOD_DEFN`: a name, types between parentheses, `->`, a type and `;`.
#[allow(non_camel_case_types)]
#[derive(Debug)]
pub struct METHOD_DEFN;

impl<'input> Symbol<'input, Classy<'input>> for METHOD_DEFN {
    type Output = Rc<MemberDefn<'input>>;

    open spec fn ready(&self, grammar: Classy<'input>, text: Seq<u8>) -> bool {
        grammar.ready(text)
    }

    open spec fn denotes(
        &self,
        input: Input<'input>,
        result: ParseResult<'input, Rc<MemberDefn<'input>>>,
    ) -> bool {
        &&& follows(standard_syntax(), METHOD_RULE as int, input, result)
        &&& result matches Ok((_, out)) ==> out@
            == MemberModel::Method(
                method(input.bytes(), matched(standard_syntax(), METHOD_RULE as int, input)),
            )
    }

    fn pretty_print(&self) -> (text: String)
        ensures
            text@ == "METHOD_DEFN"@,
    {
        "METHOD_DEFN".to_owned()
    }

    fn parse(&self, grammar: &mut Classy<'input>, input: Input<'input>) -> (result: ParseResult<
        'input,
        Rc<MemberDefn<'input>>,
    >) {
        match grammar.apply(METHOD_RULE, input) {
            Ok((rest, value)) => {
                let out = Rc::new(MemberDefn::Method(Box::new(eval_method(input.text, &value))));
                Ok((rest, out))
            },
            Err(error) => Err(error),
        }
    }
}

} // verus!
