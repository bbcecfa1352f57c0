//! The compiler: from the Lisp syntax tree to the output tree, under an environment that says
//! which module each bound name comes from.

use vstd::prelude::*;
use crate::ast::{Ast, AstView, HostValue, ast_views, lemma_ast_views};
use crate::es::{BinaryOp, Es, EsView, SourceType, UnaryOp, es_views, lemma_es_views, lemma_es_views_push};

verus! {

/// The name of the standard library: the namespace that compiled code reaches it by, and the
/// module that the environment records for the names it provides.
pub const STD: &'static str = "std";

/// Where the standard library is imported from.
pub const STD_SOURCE: &'static str = "../std/std.js";

/// The namespace that holds the constructor of identifiers.
pub const SIGMA: &'static str = "\u{3a3}";

/// What a host value that is no list of forms is refused with.
pub const NOT_A_MODULE: &'static str = "a module is a list of forms";

/// Why a module has no output tree.
#[derive(Debug, PartialEq)]
pub enum Error {
    /// The input has a shape that no lowering rule covers.
    SyntaxError { message: String },
    /// A list is headed by an identifier that is neither bound nor an arithmetic operator.
    NotDefined { identifier: String },
    /// The host value that was handed over has no syntax tree.
    AstError(crate::ast::Error),
}

/// A failure of the compiler as a mathematical value.
pub ghost enum ErrorView {
    SyntaxError { message: Seq<char> },
    NotDefined { identifier: Seq<char> },
    AstError(crate::ast::ErrorView),
}

impl View for Error {
    type V = ErrorView;

    open spec fn view(&self) -> ErrorView {
        match self {
            Error::SyntaxError { message } => ErrorView::SyntaxError { message: message@ },
            Error::NotDefined { identifier } => ErrorView::NotDefined { identifier: identifier@ },
            Error::AstError(e) => ErrorView::AstError(e@),
        }
    }
}

impl From<crate::ast::Error> for Error {
    fn from(err: crate::ast::Error) -> (e: Error) {
        Error::AstError(err)
    }
}

impl vstd::std_specs::convert::FromSpecImpl<crate::ast::Error> for Error {
    open spec fn obeys_from_spec() -> bool {
        true
    }

    open spec fn from_spec(err: crate::ast::Error) -> Error {
        Error::AstError(err)
    }
}

/// The view of the result of compiling one node.
pub open spec fn result_view(result: Result<Es, Error>) -> Result<EsView, ErrorView> {
    match result {
        Ok(es) => Ok(es@),
        Err(e) => Err(e@),
    }
}

/// The view of the result of compiling a sequence of nodes.
pub open spec fn results_view(result: Result<Vec<Es>, Error>) -> Result<Seq<EsView>, ErrorView> {
    match result {
        Ok(nodes) => Ok(es_views(nodes@)),
        Err(e) => Err(e@),
    }
}

/// The operators that a list headed by `+` or `-` lowers to, unary and binary.
pub open spec fn arithmetic(name: Seq<char>) -> Option<(UnaryOp, BinaryOp)> {
    if name == "+"@ {
        Some((UnaryOp::Plus, BinaryOp::Plus))
    } else if name == "-"@ {
        Some((UnaryOp::Minus, BinaryOp::Minus))
    } else {
        None
    }
}

/// `std.member`.
pub open spec fn std_member(member: Seq<char>) -> EsView {
    EsView::member_expr(EsView::identifier(STD@), EsView::identifier(member))
}

/// A call of the standard library's `ident` on arguments that are already lowered: `vec` hands
/// its arguments over as one array, or none at all where there are none; every other name is
/// called on the arguments as they stand.
pub open spec fn spec_std_call(ident: Seq<char>, arguments: Seq<EsView>) -> EsView {
    if ident == "vec"@ {
        if arguments.len() == 0 {
            EsView::call_expr(std_member("vecLiteral"@), Seq::empty())
        } else {
            EsView::call_expr(std_member("vecLiteral"@), seq![EsView::array_expr(arguments)])
        }
    } else {
        EsView::call_expr(std_member(ident), arguments)
    }
}

/// The output tree of one node.
pub open spec fn spec_expr(env: Map<Seq<char>, Seq<char>>, ast: AstView) -> Result<
    EsView,
    ErrorView,
>
    decreases ast, 0nat,
{
    match ast {
        AstView::Null => Ok(EsView::null()),
        AstView::Undefined => Ok(EsView::undefined()),
        AstView::Int(n) => Ok(EsView::int_literal(n)),
        AstView::Float(text) => Ok(EsView::float_literal(text)),
        AstView::String(text) => Ok(EsView::string_literal(text)),
        AstView::Keyword { module, name, full_name, hash_code } => Ok(
            EsView::new_expr(
                std_member("Keyword"@),
                seq![
                    EsView::string_literal(module),
                    EsView::string_literal(name),
                    EsView::int_literal(hash_code),
                    EsView::string_literal(full_name),
                ],
            ),
        ),
        AstView::Identifier { name, hash_code } => Ok(
            EsView::new_expr(
                EsView::member_expr(EsView::identifier(SIGMA@), EsView::identifier("Identifier"@)),
                seq![EsView::string_literal(name), EsView::int_literal(hash_code)],
            ),
        ),
        AstView::List(items) => spec_list(env, items),
    }
}

/// The output tree of a list. The empty list is an empty array. A list headed by `+` or `-` is
/// arithmetic, whatever the environment says. A list headed by another identifier is a call into
/// the module that the identifier is bound to, and an error where it is not bound. Any other
/// list is a call of its first item on the rest.
pub open spec fn spec_list(env: Map<Seq<char>, Seq<char>>, items: Seq<AstView>) -> Result<
    EsView,
    ErrorView,
>
    decreases items, 1nat,
{
    if items.len() == 0 {
        Ok(EsView::array_expr(Seq::empty()))
    } else {
        let args = items.drop_first();
        match items[0] {
            AstView::Identifier { name, .. } => {
                if let Some((unary, binary)) = arithmetic(name) {
                    if args.len() == 0 {
                        Ok(EsView::int_literal(0))
                    } else if args.len() == 1 {
                        match spec_expr(env, args[0]) {
                            Ok(argument) => Ok(EsView::unary_expr(unary, argument)),
                            Err(e) => Err(e),
                        }
                    } else {
                        spec_binary_multi_call(env, binary, args)
                    }
                } else if env.contains_key(name) {
                    match spec_expr_vec(env, args) {
                        Ok(arguments) => if env[name] == STD@ {
                            Ok(spec_std_call(name, arguments))
                        } else {
                            Ok(
                                EsView::call_expr(
                                    EsView::member_expr(
                                        EsView::identifier(env[name]),
                                        EsView::identifier(name),
                                    ),
                                    arguments,
                                ),
                            )
                        },
                        Err(e) => Err(e),
                    }
                } else {
                    Err(ErrorView::NotDefined { identifier: name })
                }
            },
            head => match spec_expr(env, head) {
                Ok(callee) => match spec_expr_vec(env, args) {
                    Ok(arguments) => Ok(EsView::call_expr(callee, arguments)),
                    Err(e) => Err(e),
                },
                Err(e) => Err(e),
            },
        }
    }
}

/// The operands of `op` folded from the left: `a`, then `a op b`, then `(a op b) op c`. The
/// error is that of the first operand that has one.
pub open spec fn spec_binary_multi_call(
    env: Map<Seq<char>, Seq<char>>,
    op: BinaryOp,
    operands: Seq<AstView>,
) -> Result<EsView, ErrorView>
    recommends
        operands.len() > 0,
    decreases operands, 0nat,
{
    if operands.len() == 0 {
        Ok(EsView::int_literal(0))
    } else if operands.len() == 1 {
        spec_expr(env, operands[0])
    } else {
        match spec_binary_multi_call(env, op, operands.drop_last()) {
            Ok(left) => match spec_expr(env, operands.last()) {
                Ok(right) => Ok(EsView::binary_expr(op, left, right)),
                Err(e) => Err(e),
            },
            Err(e) => Err(e),
        }
    }
}

/// The output trees of a sequence of nodes, in order; the error of the first node that has one.
pub open spec fn spec_expr_vec(env: Map<Seq<char>, Seq<char>>, exprs: Seq<AstView>) -> Result<
    Seq<EsView>,
    ErrorView,
>
    decreases exprs, 0nat,
{
    if exprs.len() == 0 {
        Ok(Seq::empty())
    } else {
        match spec_expr_vec(env, exprs.drop_last()) {
            Ok(front) => match spec_expr(env, exprs.last()) {
                Ok(es) => Ok(front.push(es)),
                Err(e) => Err(e),
            },
            Err(e) => Err(e),
        }
    }
}

/// Each node as a statement.
pub open spec fn statements(nodes: Seq<EsView>) -> Seq<EsView> {
    Seq::new(nodes.len(), |i: int| nodes[i].into_statement())
}

/// The program of a module: the import of the standard library, then one statement for each
/// line.
pub open spec fn spec_program(env: Map<Seq<char>, Seq<char>>, lines: Seq<AstView>) -> Result<
    EsView,
    ErrorView,
> {
    match spec_expr_vec(env, lines) {
        Ok(exprs) => Ok(
            EsView::Program {
                source_type: SourceType::Module,
                body: seq![EsView::import_as(STD@, STD_SOURCE@)] + statements(exprs),
            },
        ),
        Err(e) => Err(e),
    }
}

/// One entry of the environment.
struct Binding {
    name: String,
    module: String,
}

/// The environment that a list of entries stands for: a later entry overwrites an earlier one of
/// the same name.
pub open spec fn bindings_of(entries: Seq<(Seq<char>, Seq<char>)>) -> Map<Seq<char>, Seq<char>>
    decreases entries.len(),
{
    if entries.len() == 0 {
        Map::empty()
    } else {
        bindings_of(entries.drop_last()).insert(entries.last().0, entries.last().1)
    }
}

/// A compiler with its environment. The environment is a list of entries in which a later
/// entry hides an earlier one of the same name.
pub struct Compiler {
    special_forms: Vec<String>,
    env: Vec<Binding>,
}

impl Compiler {
    /// The entries of the environment, oldest first.
    closed spec fn entries(&self) -> Seq<(Seq<char>, Seq<char>)> {
        Seq::new(self.env.len() as nat, |i: int| (self.env[i].name@, self.env[i].module@))
    }

    /// The environment: from each bound name to the module that it comes from.
    pub closed spec fn bindings(&self) -> Map<Seq<char>, Seq<char>> {
        bindings_of(self.entries())
    }

    /// The reserved names.
    pub closed spec fn special_forms(&self) -> Set<Seq<char>> {
        Set::new(
            |name: Seq<char>|
                exists|i: int| 0 <= i < self.special_forms.len() && self.special_forms[i]@ == name,
        )
    }

    /// A compiler whose environment holds the names of the standard library.
    pub fn new() -> (compiler: Compiler)
        ensures
            compiler.bindings() == map!["vec"@ => STD@, "str"@ => STD@],
            compiler.special_forms() == set!["vec"@, "quote"@],
    {
        let mut special_forms: Vec<String> = Vec::new();
        special_forms.push("vec".to_owned());
        special_forms.push("quote".to_owned());
        let mut env: Vec<Binding> = Vec::new();
        env.push(Binding { name: "vec".to_owned(), module: STD.to_owned() });
        env.push(Binding { name: "str".to_owned(), module: STD.to_owned() });
        let compiler = Compiler { special_forms, env };
        proof {
            reveal_with_fuel(bindings_of, 3);
            assert(compiler.special_forms[0]@ == "vec"@);
            assert(compiler.special_forms[1]@ == "quote"@);
        }
        compiler
    }

    /// Binds `name` to `module`, in place of what it was bound to.
    pub fn add_env(&mut self, module: &str, name: &str)
        ensures
            final(self).bindings() == old(self).bindings().insert(name@, module@),
            final(self).special_forms() == old(self).special_forms(),
    {
        let ghost before = self.entries();
        self.env.push(Binding { name: name.to_owned(), module: module.to_owned() });
        proof {
            assert(self.entries().drop_last() =~= before);
        }
    }

    /// The module that `name` is bound to, if it is bound.
    pub fn lookup(&self, name: &str) -> (module: Option<&String>)
        ensures
            module is Some <==> self.bindings().contains_key(name@),
            module matches Some(m) ==> m@ == self.bindings()[name@],
    {
        let mut i: usize = self.env.len();
        proof {
            assert(self.entries().take(i as int) =~= self.entries());
        }
        while i > 0
            invariant
                i <= self.env.len(),
                bindings_of(self.entries().take(i as int)).contains_key(name@)
                    == self.bindings().contains_key(name@),
                self.bindings().contains_key(name@) ==> bindings_of(
                    self.entries().take(i as int),
                )[name@] == self.bindings()[name@],
            decreases i,
        {
            i -= 1;
            proof {
                let part = self.entries().take(i + 1);
                assert(part.drop_last() =~= self.entries().take(i as int));
            }
            if *self.env[i].name.as_str() == *name {
                return Some(&self.env[i].module);
            }
        }
        None
    }

    /// Whether `identifier_name` is bound.
    pub fn env_contains(&self, identifier_name: &str) -> (bound: bool)
        ensures
            bound == self.bindings().contains_key(identifier_name@),
    {
        self.lookup(identifier_name).is_some()
    }

    /// Whether `name` is one of the reserved names.
    pub fn is_special_form(&self, name: &str) -> (reserved: bool)
        ensures
            reserved == self.special_forms().contains(name@),
    {
        let mut i: usize = 0;
        while i < self.special_forms.len()
            invariant
                i <= self.special_forms.len(),
                forall|j: int| 0 <= j < i ==> self.special_forms[j]@ != name@,
            decreases self.special_forms.len() - i,
        {
            if *self.special_forms[i].as_str() == *name {
                return true;
            }
            i += 1;
        }
        false
    }
}

/// What a host value compiles to: the program of the list of forms that it stands for.
pub open spec fn spec_compile(env: Map<Seq<char>, Seq<char>>, value: crate::ast::HostValueView)
    -> Result<EsView, ErrorView> {
    match crate::ast::spec_try_from(value) {
        Ok(AstView::List(lines)) => spec_program(env, lines),
        Ok(_) => Err(ErrorView::SyntaxError { message: NOT_A_MODULE@ }),
        Err(e) => Err(ErrorView::AstError(e)),
    }
}

/// The name of the identifier that heads `list`, if an identifier heads it.
fn split_first_identifier(list: &Vec<Ast>) -> (head: Option<&String>)
    ensures
        head is Some <==> list.len() > 0 && list[0]@ is Identifier,
        head matches Some(name) ==> name@ == list[0]@->Identifier_name,
{
    if list.len() == 0 {
        return None;
    }
    match &list[0] {
        Ast::Identifier { name, .. } => Some(name),
        _ => None,
    }
}

/// A failure among the first `upto` nodes is the failure of the whole sequence.
proof fn lemma_expr_vec_failure(env: Map<Seq<char>, Seq<char>>, exprs: Seq<AstView>, upto: int)
    requires
        0 <= upto <= exprs.len(),
        spec_expr_vec(env, exprs.take(upto)) is Err,
    ensures
        spec_expr_vec(env, exprs) == spec_expr_vec(env, exprs.take(upto)),
    decreases exprs.len() - upto,
{
    if upto == exprs.len() {
        assert(exprs.take(upto) =~= exprs);
    } else {
        assert(exprs.take(upto + 1).drop_last() =~= exprs.take(upto));
        lemma_expr_vec_failure(env, exprs, upto + 1);
    }
}

/// A failure among the first `upto` operands is the failure of the whole fold.
proof fn lemma_binary_failure(
    env: Map<Seq<char>, Seq<char>>,
    op: BinaryOp,
    operands: Seq<AstView>,
    upto: int,
)
    requires
        1 <= upto <= operands.len(),
        spec_binary_multi_call(env, op, operands.take(upto)) is Err,
    ensures
        spec_binary_multi_call(env, op, operands) == spec_binary_multi_call(
            env,
            op,
            operands.take(upto),
        ),
    decreases operands.len() - upto,
{
    if upto == operands.len() {
        assert(operands.take(upto) =~= operands);
    } else {
        assert(operands.take(upto + 1).drop_last() =~= operands.take(upto));
        lemma_binary_failure(env, op, operands, upto + 1);
    }
}

impl Compiler {
    /// Compiles the lines of a module into a program.
    pub fn compile_ast(&mut self, lines: Vec<Ast>) -> (result: Result<Es, Error>)
        ensures
            result_view(result) == spec_program(old(self).bindings(), ast_views(lines@)),
            final(self).bindings() == old(self).bindings(),
            final(self).special_forms() == old(self).special_forms(),
    {
        self.program(&lines)
    }

    /// Compiles the module that a host value stands for.
    pub fn compile(&mut self, value: &HostValue) -> (result: Result<Es, Error>)
        ensures
            result_view(result) == spec_compile(old(self).bindings(), value@),
            final(self).bindings() == old(self).bindings(),
            final(self).special_forms() == old(self).special_forms(),
    {
        match Ast::try_from(value) {
            Ok(Ast::List(lines)) => self.program(&lines),
            Ok(_) => Err(Error::SyntaxError { message: NOT_A_MODULE.to_owned() }),
            Err(e) => Err(Error::from(e)),
        }
    }

    fn program(&self, lines: &Vec<Ast>) -> (result: Result<Es, Error>)
        ensures
            result_view(result) == spec_program(self.bindings(), ast_views(lines@)),
    {
        let ghost nodes = ast_views(lines@);
        let ghost mut compiled: Seq<EsView> = Seq::empty();
        let mut body: Vec<Es> = Vec::new();
        body.push(Es::import_as(STD, STD_SOURCE));
        let mut i: usize = 0;
        proof {
            lemma_ast_views(lines@);
        }
        while i < lines.len()
            invariant
                i <= lines.len(),
                nodes == ast_views(lines@),
                spec_expr_vec(self.bindings(), nodes.take(i as int)) == Ok::<
                    Seq<EsView>,
                    ErrorView,
                >(compiled),
                compiled.len() == i,
                body.len() == i + 1,
                body[0]@ == EsView::import_as(STD@, STD_SOURCE@),
                forall|j: int|
                    1 <= j <= i ==> #[trigger] body[j]@ == compiled[j - 1].into_statement(),
            decreases lines.len() - i,
        {
            proof {
                lemma_ast_views(lines@);
                let next = nodes.take(i + 1);
                assert(next.drop_last() =~= nodes.take(i as int));
            }
            match self.expr(&lines[i]) {
                Ok(es) => {
                    proof {
                        compiled = compiled.push(es@);
                    }
                    body.push(es.into_statement());
                },
                Err(e) => {
                    proof {
                        lemma_expr_vec_failure(self.bindings(), nodes, i + 1);
                    }
                    return Err(e);
                },
            }
            i += 1;
        }
        let program = Es::Program { source_type: SourceType::Module, body };
        proof {
            lemma_es_views(body@);
            assert(nodes.take(i as int) =~= nodes);
            assert(es_views(body@) =~= seq![EsView::import_as(STD@, STD_SOURCE@)] + statements(
                compiled,
            ));
        }
        Ok(program)
    }

    /// Compiles one node. A keyword and an identifier hand their fields on as they stand: no
    /// name is put together and no hash computed here.
    pub fn expr(&self, ast: &Ast) -> (result: Result<Es, Error>)
        ensures
            result_view(result) == spec_expr(self.bindings(), ast@),
        decreases ast, 0nat,
    {
        match ast {
            Ast::Null => Ok(Es::null()),
            Ast::Undefined => Ok(Es::undefined()),
            Ast::Int(n) => Ok(Es::int_literal(*n)),
            Ast::Float(text) => Ok(Es::float_literal(text.as_str())),
            Ast::String(text) => Ok(Es::string_literal(text.as_str())),
            Ast::Keyword { module, name, full_name, hash_code } => {
                let mut arguments: Vec<Es> = Vec::new();
                arguments.push(Es::string_literal(module.as_str()));
                arguments.push(Es::string_literal(name.as_str()));
                arguments.push(Es::int_literal(*hash_code));
                arguments.push(Es::string_literal(full_name.as_str()));
                proof {
                    lemma_es_views(arguments@);
                    assert(es_views(arguments@) =~= seq![
                        EsView::string_literal(module@),
                        EsView::string_literal(name@),
                        EsView::int_literal(*hash_code),
                        EsView::string_literal(full_name@),
                    ]);
                }
                Ok(
                    Es::new_expr(
                        Es::member_expr(Es::identifier(STD), Es::identifier("Keyword")),
                        arguments,
                    ),
                )
            },
            Ast::Identifier { name, hash_code } => {
                let mut arguments: Vec<Es> = Vec::new();
                arguments.push(Es::string_literal(name.as_str()));
                arguments.push(Es::int_literal(*hash_code));
                proof {
                    lemma_es_views(arguments@);
                    assert(es_views(arguments@) =~= seq![
                        EsView::string_literal(name@),
                        EsView::int_literal(*hash_code),
                    ]);
                }
                Ok(
                    Es::new_expr(
                        Es::member_expr(Es::identifier(SIGMA), Es::identifier("Identifier")),
                        arguments,
                    ),
                )
            },
            Ast::List(items) => self.list(items),
        }
    }

    fn list(&self, items: &Vec<Ast>) -> (result: Result<Es, Error>)
        ensures
            result_view(result) == spec_list(self.bindings(), ast_views(items@)),
        decreases items, 1nat,
    {
        proof {
            lemma_ast_views(items@);
        }
        if items.len() == 0 {
            let elements: Vec<Es> = Vec::new();
            proof {
                lemma_es_views(elements@);
                assert(es_views(elements@) =~= Seq::<EsView>::empty());
            }
            return Ok(Es::ArrayExpression { elements });
        }
        match split_first_identifier(items) {
            Some(name) => {
                let plus = *name.as_str() == *"+";
                let minus = *name.as_str() == *"-";
                if plus || minus {
                    let unary = if plus {
                        UnaryOp::Plus
                    } else {
                        UnaryOp::Minus
                    };
                    let binary = if plus {
                        BinaryOp::Plus
                    } else {
                        BinaryOp::Minus
                    };
                    if items.len() == 1 {
                        Ok(Es::int_literal(0))
                    } else if items.len() == 2 {
                        match self.expr(&items[1]) {
                            Ok(argument) => Ok(Es::unary_expr(unary, argument)),
                            Err(e) => Err(e),
                        }
                    } else {
                        self.binary_multi_call(binary, items, 1)
                    }
                } else {
                    match self.lookup(name.as_str()) {
                        Some(module) => match self.expr_vec(items, 1) {
                            Ok(arguments) => {
                                if *module.as_str() == *STD {
                                    Ok(self.std_call(name.as_str(), arguments))
                                } else {
                                    Ok(
                                        Es::call_expr(
                                            Es::member_expr(
                                                Es::identifier(module.as_str()),
                                                Es::identifier(name.as_str()),
                                            ),
                                            arguments,
                                        ),
                                    )
                                }
                            },
                            Err(e) => Err(e),
                        },
                        None => Err(Error::NotDefined { identifier: name.clone() }),
                    }
                }
            },
            None => match self.expr(&items[0]) {
                Ok(callee) => match self.expr_vec(items, 1) {
                    Ok(arguments) => Ok(Es::call_expr(callee, arguments)),
                    Err(e) => Err(e),
                },
                Err(e) => Err(e),
            },
        }
    }

    fn std_call(&self, ident: &str, arguments: Vec<Es>) -> (es: Es)
        ensures
            es@ == spec_std_call(ident@, es_views(arguments@)),
    {
        proof {
            lemma_es_views(arguments@);
        }
        if *ident == *"vec" {
            let callee = Es::member_expr(Es::identifier(STD), Es::identifier("vecLiteral"));
            if arguments.len() == 0 {
                assert(es_views(arguments@) =~= Seq::<EsView>::empty());
                Es::call_expr(callee, arguments)
            } else {
                let mut wrapped: Vec<Es> = Vec::new();
                wrapped.push(Es::ArrayExpression { elements: arguments });
                proof {
                    lemma_es_views(wrapped@);
                    assert(es_views(wrapped@) =~= seq![
                        EsView::array_expr(es_views(arguments@)),
                    ]);
                }
                Es::call_expr(callee, wrapped)
            }
        } else {
            Es::call_expr(Es::member_expr(Es::identifier(STD), Es::identifier(ident)), arguments)
        }
    }

    /// Folds the nodes of `items` from `from` on with `op`, from the left.
    fn binary_multi_call(&self, op: BinaryOp, items: &Vec<Ast>, from: usize) -> (result: Result<
        Es,
        Error,
    >)
        requires
            from < items.len(),
        ensures
            result_view(result) == spec_binary_multi_call(
                self.bindings(),
                op,
                ast_views(items@).subrange(from as int, items.len() as int),
            ),
        decreases items, 0nat,
    {
        let ghost operands = ast_views(items@).subrange(from as int, items.len() as int);
        proof {
            lemma_ast_views(items@);
        }
        let mut left = match self.expr(&items[from]) {
            Ok(first) => first,
            Err(e) => {
                proof {
                    lemma_binary_failure(self.bindings(), op, operands, 1);
                }
                return Err(e);
            },
        };
        let mut i: usize = from + 1;
        while i < items.len()
            invariant
                from < i <= items.len(),
                operands == ast_views(items@).subrange(from as int, items.len() as int),
                spec_binary_multi_call(self.bindings(), op, operands.take(i - from)) == Ok::<
                    EsView,
                    ErrorView,
                >(left@),
            decreases items.len() - i,
        {
            proof {
                lemma_ast_views(items@);
                let next = operands.take(i + 1 - from);
                assert(next.drop_last() =~= operands.take(i - from));
            }
            match self.expr(&items[i]) {
                Ok(right) => {
                    left = Es::binary_expr(op, left, right);
                },
                Err(e) => {
                    proof {
                        lemma_binary_failure(self.bindings(), op, operands, i + 1 - from);
                    }
                    return Err(e);
                },
            }
            i += 1;
        }
        assert(operands.take(i - from) =~= operands);
        Ok(left)
    }

    /// Compiles the nodes of `exprs` from `from` on, in order.
    fn expr_vec(&self, exprs: &Vec<Ast>, from: usize) -> (result: Result<Vec<Es>, Error>)
        requires
            from <= exprs.len(),
        ensures
            results_view(result) == spec_expr_vec(
                self.bindings(),
                ast_views(exprs@).subrange(from as int, exprs.len() as int),
            ),
        decreases exprs, 0nat,
    {
        let ghost nodes = ast_views(exprs@).subrange(from as int, exprs.len() as int);
        let mut compiled: Vec<Es> = Vec::new();
        let mut i: usize = from;
        proof {
            lemma_ast_views(exprs@);
            assert(es_views(compiled@) =~= Seq::<EsView>::empty());
        }
        while i < exprs.len()
            invariant
                from <= i <= exprs.len(),
                nodes == ast_views(exprs@).subrange(from as int, exprs.len() as int),
                spec_expr_vec(self.bindings(), nodes.take(i - from)) == Ok::<
                    Seq<EsView>,
                    ErrorView,
                >(es_views(compiled@)),
            decreases exprs.len() - i,
        {
            proof {
                lemma_ast_views(exprs@);
                let next = nodes.take(i + 1 - from);
                assert(next.drop_last() =~= nodes.take(i - from));
            }
            match self.expr(&exprs[i]) {
                Ok(es) => {
                    proof {
                        lemma_es_views_push(compiled@, es);
                    }
                    compiled.push(es);
                },
                Err(e) => {
                    proof {
                        lemma_expr_vec_failure(self.bindings(), nodes, i + 1 - from);
                    }
                    return Err(e);
                },
            }
            i += 1;
        }
        assert(nodes.take(i - from) =~= nodes);
        Ok(compiled)
    }
}

/// A keyword compiles to a construction `new std.Keyword(module, name, hash, full_name)` whose
/// arguments are the keyword's own fields: the hash is handed on as it stands, whatever it is.
pub proof fn lemma_keyword_identity(
    env: Map<Seq<char>, Seq<char>>,
    module: Seq<char>,
    name: Seq<char>,
    full_name: Seq<char>,
    hash_code: i64,
)
    ensures
        spec_expr(env, AstView::Keyword { module, name, full_name, hash_code }) == Ok::<
            EsView,
            ErrorView,
        >(
            EsView::new_expr(
                std_member("Keyword"@),
                seq![
                    EsView::string_literal(module),
                    EsView::string_literal(name),
                    EsView::int_literal(hash_code),
                    EsView::string_literal(full_name),
                ],
            ),
        ),
{
}

/// An identifier compiles to a construction `new Σ.Identifier(name, hash)` whose arguments are
/// the identifier's own fields.
pub proof fn lemma_identifier_identity(
    env: Map<Seq<char>, Seq<char>>,
    name: Seq<char>,
    hash_code: i64,
)
    ensures
        spec_expr(env, AstView::Identifier { name, hash_code }) == Ok::<EsView, ErrorView>(
            EsView::new_expr(
                EsView::member_expr(EsView::identifier(SIGMA@), EsView::identifier("Identifier"@)),
                seq![EsView::string_literal(name), EsView::int_literal(hash_code)],
            ),
        ),
{
}

/// The empty list compiles to the empty array, which is no call, under every environment.
pub proof fn lemma_empty_list_is_array(env: Map<Seq<char>, Seq<char>>)
    ensures
        spec_expr(env, AstView::List(Seq::empty())) == Ok::<EsView, ErrorView>(
            EsView::array_expr(Seq::empty()),
        ),
        !(spec_expr(env, AstView::List(Seq::empty()))->Ok_0 is CallExpression),
{
}

/// `+` or `-` without operands is the literal `0`.
pub proof fn lemma_arithmetic_without_operands(
    env: Map<Seq<char>, Seq<char>>,
    name: Seq<char>,
    hash_code: i64,
)
    requires
        arithmetic(name) is Some,
    ensures
        spec_list(env, seq![AstView::Identifier { name, hash_code }]) == Ok::<EsView, ErrorView>(
            EsView::int_literal(0),
        ),
{
}

/// `+` or `-` on one operand is the unary operator on what the operand compiles to.
pub proof fn lemma_arithmetic_on_one_operand(
    env: Map<Seq<char>, Seq<char>>,
    name: Seq<char>,
    hash_code: i64,
    operand: AstView,
)
    requires
        arithmetic(name) is Some,
    ensures
        spec_list(env, seq![AstView::Identifier { name, hash_code }, operand]) == match spec_expr(
            env,
            operand,
        ) {
            Ok(argument) => Ok::<EsView, ErrorView>(
                EsView::unary_expr(arithmetic(name)->Some_0.0, argument),
            ),
            Err(e) => Err(e),
        },
{
    let items = seq![AstView::Identifier { name, hash_code }, operand];
}

/// `+` or `-` on two or more operands is the fold of the binary operator over them.
pub proof fn lemma_arithmetic_on_operands(
    env: Map<Seq<char>, Seq<char>>,
    name: Seq<char>,
    hash_code: i64,
    operands: Seq<AstView>,
)
    requires
        arithmetic(name) is Some,
        operands.len() >= 2,
    ensures
        spec_list(env, seq![AstView::Identifier { name, hash_code }] + operands)
            == spec_binary_multi_call(env, arithmetic(name)->Some_0.1, operands),
{
    let items = seq![AstView::Identifier { name, hash_code }] + operands;
    assert(items.drop_first() =~= operands);
}

/// The fold leans to the left: three operands `a`, `b`, `c` that compile give `(a op b) op c`.
pub proof fn lemma_fold_leans_left(
    env: Map<Seq<char>, Seq<char>>,
    op: BinaryOp,
    a: AstView,
    b: AstView,
    c: AstView,
)
    requires
        spec_expr(env, a) is Ok,
        spec_expr(env, b) is Ok,
        spec_expr(env, c) is Ok,
    ensures
        spec_binary_multi_call(env, op, seq![a, b, c]) == Ok::<EsView, ErrorView>(
            EsView::binary_expr(
                op,
                EsView::binary_expr(op, spec_expr(env, a)->Ok_0, spec_expr(env, b)->Ok_0),
                spec_expr(env, c)->Ok_0,
            ),
        ),
{
    reveal_with_fuel(spec_binary_multi_call, 3);
}

/// A list headed by an identifier that is neither bound nor `+` nor `-` does not compile: the
/// error names the identifier, whatever follows it.
pub proof fn lemma_unbound_identifier(
    env: Map<Seq<char>, Seq<char>>,
    name: Seq<char>,
    hash_code: i64,
    args: Seq<AstView>,
)
    requires
        !env.contains_key(name),
        arithmetic(name) is None,
    ensures
        spec_list(env, seq![AstView::Identifier { name, hash_code }] + args) == Err::<
            EsView,
            ErrorView,
        >(ErrorView::NotDefined { identifier: name }),
{
}

/// Where `vec` is bound to the standard library, `(vec)` is the call `std.vecLiteral()`, and
/// `vec` on arguments that compile is `std.vecLiteral` called on the one array of them.
pub proof fn lemma_vec_lowering(env: Map<Seq<char>, Seq<char>>, hash_code: i64, args: Seq<AstView>)
    requires
        env.contains_key("vec"@),
        env["vec"@] == STD@,
        spec_expr_vec(env, args) is Ok,
    ensures
        spec_list(env, seq![AstView::Identifier { name: "vec"@, hash_code }] + args) == Ok::<
            EsView,
            ErrorView,
        >(
            if args.len() == 0 {
                EsView::call_expr(std_member("vecLiteral"@), Seq::empty())
            } else {
                EsView::call_expr(
                    std_member("vecLiteral"@),
                    seq![EsView::array_expr(spec_expr_vec(env, args)->Ok_0)],
                )
            },
        ),
{
    reveal_strlit("vec");
    reveal_strlit("+");
    reveal_strlit("-");
    let items = seq![AstView::Identifier { name: "vec"@, hash_code }] + args;
    assert(items.drop_first() =~= args);
    assert("vec"@.len() == 3 && "+"@.len() == 1 && "-"@.len() == 1);
    lemma_expr_vec_len(env, args);
}

/// A sequence that compiles gives one output tree for each of its nodes.
pub proof fn lemma_expr_vec_len(env: Map<Seq<char>, Seq<char>>, exprs: Seq<AstView>)
    requires
        spec_expr_vec(env, exprs) is Ok,
    ensures
        spec_expr_vec(env, exprs)->Ok_0.len() == exprs.len(),
        forall|i: int|
            0 <= i < exprs.len() ==> spec_expr(env, #[trigger] exprs[i]) == Ok::<
                EsView,
                ErrorView,
            >(spec_expr_vec(env, exprs)->Ok_0[i]),
    decreases exprs.len(),
{
    if exprs.len() > 0 {
        lemma_expr_vec_len(env, exprs.drop_last());
        assert forall|i: int| 0 <= i < exprs.len() implies spec_expr(env, #[trigger] exprs[i])
            == Ok::<EsView, ErrorView>(spec_expr_vec(env, exprs)->Ok_0[i]) by {
            if i < exprs.len() - 1 {
                assert(exprs.drop_last()[i] == exprs[i]);
            }
        }
    }
}

/// A program opens with the import of the standard library and goes on with one statement for
/// each line of the module, in order; no expression stands bare in it.
pub proof fn lemma_program_shape(env: Map<Seq<char>, Seq<char>>, lines: Seq<AstView>)
    requires
        spec_program(env, lines) is Ok,
    ensures
        spec_program(env, lines)->Ok_0 is Program,
        spec_program(env, lines)->Ok_0->body.len() == lines.len() + 1,
        spec_program(env, lines)->Ok_0->body[0] == EsView::import_as(STD@, STD_SOURCE@),
        forall|i: int|
            0 <= i < lines.len() ==> spec_expr(env, #[trigger] lines[i]) is Ok && spec_program(
                env,
                lines,
            )->Ok_0->body[i + 1] == spec_expr(env, lines[i])->Ok_0.into_statement(),
        forall|i: int|
            0 <= i <= lines.len() ==> !(#[trigger] spec_program(
                env,
                lines,
            )->Ok_0->body[i]).is_expression(),
{
    lemma_expr_vec_len(env, lines);
}

/// A module compiles exactly when each of its lines does.
pub proof fn lemma_program_compiles(env: Map<Seq<char>, Seq<char>>, lines: Seq<AstView>)
    ensures
        spec_program(env, lines) is Ok <==> forall|i: int|
            0 <= i < lines.len() ==> spec_expr(env, #[trigger] lines[i]) is Ok,
    decreases lines.len(),
{
    if lines.len() > 0 {
        lemma_program_compiles(env, lines.drop_last());
        if spec_expr_vec(env, lines) is Ok {
            lemma_expr_vec_len(env, lines);
        } else {
            if spec_expr_vec(env, lines.drop_last()) is Ok {
                assert(spec_expr(env, lines[lines.len() - 1]) is Err);
            } else {
                let i = choose|i: int|
                    0 <= i < lines.drop_last().len() && !(spec_expr(
                        env,
                        #[trigger] lines.drop_last()[i],
                    ) is Ok);
                assert(lines.drop_last()[i] == lines[i]);
            }
        }
    }
}

} // verus!
