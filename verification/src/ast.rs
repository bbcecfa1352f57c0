//! The Lisp-side syntax tree, and its construction from values that a host hands over.

use vstd::prelude::*;
use crate::util::{hash_cyrb53, spec_hash_cyrb53};

verus! {

/// A node of the Lisp syntax tree. A floating-point number is kept as its decimal text.
#[derive(Debug, PartialEq)]
pub enum Ast {
    Undefined,
    Null,
    Int(i64),
    Float(String),
    String(String),
    List(Vec<Ast>),
    Keyword { module: String, name: String, full_name: String, hash_code: i64 },
    Identifier { name: String, hash_code: i64 },
}

/// A syntax tree as a mathematical value.
pub ghost enum AstView {
    Undefined,
    Null,
    Int(i64),
    Float(Seq<char>),
    String(Seq<char>),
    List(Seq<AstView>),
    Keyword { module: Seq<char>, name: Seq<char>, full_name: Seq<char>, hash_code: i64 },
    Identifier { name: Seq<char>, hash_code: i64 },
}

/// The views of a sequence of nodes, element by element.
pub open spec fn ast_views(nodes: Seq<Ast>) -> Seq<AstView>
    decreases nodes,
{
    Seq::new(
        nodes.len(),
        |i: int|
            if 0 <= i < nodes.len() {
                nodes[i].model()
            } else {
                arbitrary()
            },
    )
}

/// The name under which a keyword is known: `module/name`, or `name` alone where the module is
/// empty.
pub open spec fn full_name_of(module: Seq<char>, name: Seq<char>) -> Seq<char> {
    if module.len() == 0 {
        name
    } else {
        module.push('/') + name
    }
}

impl AstView {
    /// The identifier called `name`, with the hash of its name.
    pub open spec fn identifier(name: Seq<char>) -> AstView {
        AstView::Identifier { name, hash_code: spec_hash_cyrb53(name) as i64 }
    }

    /// The keyword `name` of `module`, with the hash of its full name.
    pub open spec fn keyword(module: Seq<char>, name: Seq<char>) -> AstView {
        AstView::Keyword {
            module,
            name,
            full_name: full_name_of(module, name),
            hash_code: spec_hash_cyrb53(full_name_of(module, name)) as i64,
        }
    }

    /// Names and hashes agree everywhere in the tree: a keyword's full name is made of its
    /// module and name, and every hash is the hash of the name it stands beside.
    pub open spec fn well_formed(self) -> bool
        decreases self,
    {
        match self {
            AstView::Keyword { module, name, full_name, hash_code } => {
                &&& full_name == full_name_of(module, name)
                &&& hash_code == spec_hash_cyrb53(full_name)
            },
            AstView::Identifier { name, hash_code } => hash_code == spec_hash_cyrb53(name),
            AstView::List(items) => forall|i: int|
                0 <= i < items.len() ==> (#[trigger] items[i]).well_formed(),
            _ => true,
        }
    }
}

impl Ast {
    /// The tree as a mathematical value.
    pub open spec fn model(&self) -> AstView
        decreases self,
    {
        match self {
            Ast::Undefined => AstView::Undefined,
            Ast::Null => AstView::Null,
            Ast::Int(n) => AstView::Int(*n),
            Ast::Float(text) => AstView::Float(text@),
            Ast::String(text) => AstView::String(text@),
            Ast::List(items) => AstView::List(ast_views(items@)),
            Ast::Keyword { module, name, full_name, hash_code } => AstView::Keyword {
                module: module@,
                name: name@,
                full_name: full_name@,
                hash_code: *hash_code,
            },
            Ast::Identifier { name, hash_code } => AstView::Identifier {
                name: name@,
                hash_code: *hash_code,
            },
        }
    }
}

impl View for Ast {
    type V = AstView;

    open spec fn view(&self) -> AstView {
        self.model()
    }
}

/// `ast_views` keeps the length and views each element in place.
pub proof fn lemma_ast_views(nodes: Seq<Ast>)
    ensures
        ast_views(nodes).len() == nodes.len(),
        forall|i: int| 0 <= i < nodes.len() ==> #[trigger] ast_views(nodes)[i] == nodes[i]@,
{
}

/// Viewing commutes with appending a node.
pub proof fn lemma_ast_views_push(nodes: Seq<Ast>, node: Ast)
    ensures
        ast_views(nodes.push(node)) == ast_views(nodes).push(node@),
{
    lemma_ast_views(nodes);
    lemma_ast_views(nodes.push(node));
}

/// Two well-formed identifiers of one name carry one hash, and so do two well-formed keywords
/// of one module and name.
pub proof fn lemma_equal_names_equal_hashes(a: AstView, b: AstView)
    requires
        a.well_formed(),
        b.well_formed(),
    ensures
        a is Identifier && b is Identifier && a->Identifier_name == b->Identifier_name ==> a == b,
        a is Keyword && b is Keyword && a->module == b->module && a->Keyword_name
            == b->Keyword_name ==> a == b,
{
}

impl Ast {
    /// The identifier called `name`.
    pub fn identifier(name: &str) -> (ast: Ast)
        ensures
            ast@ == AstView::identifier(name@),
            ast@.well_formed(),
    {
        Ast::Identifier { name: name.to_owned(), hash_code: hash_cyrb53(name) }
    }

    /// The keyword `name` of `module`; an empty `module` stands for none.
    pub fn keyword(module: &str, name: &str) -> (ast: Ast)
        ensures
            ast@ == AstView::keyword(module@, name@),
            ast@.well_formed(),
    {
        let full_name = if module.is_empty() {
            name.to_owned()
        } else {
            let mut joined = module.to_owned();
            joined.push('/');
            joined.append(name);
            joined
        };
        let hash_code = hash_cyrb53(full_name.as_str());
        Ast::Keyword { module: module.to_owned(), name: name.to_owned(), full_name, hash_code }
    }
}

/// A keyword object of the host, by what its accessors return.
#[derive(Debug, PartialEq)]
pub struct HostKeyword {
    pub module: String,
    pub name: String,
    pub full_name: String,
    pub hash_code: i64,
}

/// An identifier object of the host, by what its accessors return.
#[derive(Debug, PartialEq)]
pub struct HostIdentifier {
    pub name: String,
    pub hash_code: i64,
}

/// A value of the host, by what each probe of its shape reports. A probe that does not apply
/// reports `false` or `None`; nothing keeps two probes from applying to one value, so the
/// conversion fixes the order in which they count.
#[derive(Debug, PartialEq)]
pub struct HostValue {
    pub is_null: bool,
    pub is_undefined: bool,
    /// The value as an integer, where the host takes it for a safe integer.
    pub safe_integer: Option<i64>,
    /// The value as the decimal text of a number, where the host takes it for a number.
    pub number: Option<String>,
    pub string: Option<String>,
    pub array: Option<Vec<HostValue>>,
    pub keyword: Option<HostKeyword>,
    pub identifier: Option<HostIdentifier>,
}

/// A keyword object of the host as a mathematical value.
pub ghost struct HostKeywordView {
    pub module: Seq<char>,
    pub name: Seq<char>,
    pub full_name: Seq<char>,
    pub hash_code: i64,
}

/// An identifier object of the host as a mathematical value.
pub ghost struct HostIdentifierView {
    pub name: Seq<char>,
    pub hash_code: i64,
}

/// A value of the host as a mathematical value.
pub ghost struct HostValueView {
    pub is_null: bool,
    pub is_undefined: bool,
    pub safe_integer: Option<i64>,
    pub number: Option<Seq<char>>,
    pub string: Option<Seq<char>>,
    pub array: Option<Seq<HostValueView>>,
    pub keyword: Option<HostKeywordView>,
    pub identifier: Option<HostIdentifierView>,
}

impl View for HostKeyword {
    type V = HostKeywordView;

    open spec fn view(&self) -> HostKeywordView {
        HostKeywordView {
            module: self.module@,
            name: self.name@,
            full_name: self.full_name@,
            hash_code: self.hash_code,
        }
    }
}

impl View for HostIdentifier {
    type V = HostIdentifierView;

    open spec fn view(&self) -> HostIdentifierView {
        HostIdentifierView { name: self.name@, hash_code: self.hash_code }
    }
}

/// The view of an optional string.
pub open spec fn text_view(text: Option<String>) -> Option<Seq<char>> {
    match text {
        Some(t) => Some(t@),
        None => None,
    }
}

/// The views of a sequence of host values, element by element.
pub open spec fn host_views(values: Seq<HostValue>) -> Seq<HostValueView>
    decreases values,
{
    Seq::new(
        values.len(),
        |i: int|
            if 0 <= i < values.len() {
                values[i].model()
            } else {
                arbitrary()
            },
    )
}

impl HostValue {
    /// The value as a mathematical value.
    pub open spec fn model(&self) -> HostValueView
        decreases self,
    {
        HostValueView {
            is_null: self.is_null,
            is_undefined: self.is_undefined,
            safe_integer: self.safe_integer,
            number: text_view(self.number),
            string: text_view(self.string),
            array: match self.array {
                Some(items) => Some(host_views(items@)),
                None => None,
            },
            keyword: match self.keyword {
                Some(k) => Some(k@),
                None => None,
            },
            identifier: match self.identifier {
                Some(i) => Some(i@),
                None => None,
            },
        }
    }
}

impl View for HostValue {
    type V = HostValueView;

    open spec fn view(&self) -> HostValueView {
        self.model()
    }
}

/// `host_views` keeps the length and views each element in place.
pub proof fn lemma_host_views(values: Seq<HostValue>)
    ensures
        host_views(values).len() == values.len(),
        forall|i: int| 0 <= i < values.len() ==> #[trigger] host_views(values)[i] == values[i]@,
{
}

/// Why a host value has no syntax tree.
#[derive(Debug, PartialEq)]
pub enum Error {
    /// None of the probes applies to the value that is held.
    UnknownData(HostValue),
}

/// A failure of the conversion as a mathematical value.
pub ghost enum ErrorView {
    UnknownData(HostValueView),
}

impl View for Error {
    type V = ErrorView;

    open spec fn view(&self) -> ErrorView {
        match self {
            Error::UnknownData(value) => ErrorView::UnknownData(value@),
        }
    }
}

/// The view of a result of the conversion.
pub open spec fn result_view(result: Result<Ast, Error>) -> Result<AstView, ErrorView> {
    match result {
        Ok(ast) => Ok(ast@),
        Err(e) => Err(e@),
    }
}

/// The view of a result of converting every item of an array.
pub open spec fn results_view(result: Result<Vec<Ast>, Error>) -> Result<Seq<AstView>, ErrorView> {
    match result {
        Ok(items) => Ok(ast_views(items@)),
        Err(e) => Err(e@),
    }
}

/// The syntax tree of a host value. The probes count in this order: null, undefined, safe
/// integer, number, string, array, keyword, identifier. A value to which none applies has no
/// tree, and an array has one only if each of its items has.
pub open spec fn spec_try_from(value: HostValueView) -> Result<AstView, ErrorView>
    decreases value,
{
    if value.is_null {
        Ok(AstView::Null)
    } else if value.is_undefined {
        Ok(AstView::Undefined)
    } else if let Some(n) = value.safe_integer {
        Ok(AstView::Int(n))
    } else if let Some(text) = value.number {
        Ok(AstView::Float(text))
    } else if let Some(text) = value.string {
        Ok(AstView::String(text))
    } else if let Some(items) = value.array {
        match spec_array_to_ast(items) {
            Ok(list) => Ok(AstView::List(list)),
            Err(e) => Err(e),
        }
    } else if let Some(k) = value.keyword {
        Ok(
            AstView::Keyword {
                module: k.module,
                name: k.name,
                full_name: k.full_name,
                hash_code: k.hash_code,
            },
        )
    } else if let Some(i) = value.identifier {
        Ok(AstView::Identifier { name: i.name, hash_code: i.hash_code })
    } else {
        Err(ErrorView::UnknownData(value))
    }
}

/// The trees of the items of an array, in order; the error of the first item that has none.
pub open spec fn spec_array_to_ast(items: Seq<HostValueView>) -> Result<Seq<AstView>, ErrorView>
    decreases items,
{
    if items.len() == 0 {
        Ok(Seq::empty())
    } else {
        match spec_array_to_ast(items.drop_last()) {
            Err(e) => Err(e),
            Ok(front) => match spec_try_from(items.last()) {
                Err(e) => Err(e),
                Ok(ast) => Ok(front.push(ast)),
            },
        }
    }
}

impl Clone for HostKeyword {
    fn clone(&self) -> (copy: HostKeyword)
        ensures
            copy@ == self@,
    {
        HostKeyword {
            module: self.module.clone(),
            name: self.name.clone(),
            full_name: self.full_name.clone(),
            hash_code: self.hash_code,
        }
    }
}

impl Clone for HostIdentifier {
    fn clone(&self) -> (copy: HostIdentifier)
        ensures
            copy@ == self@,
    {
        HostIdentifier { name: self.name.clone(), hash_code: self.hash_code }
    }
}

/// A copy of an optional string.
fn copy_text(text: &Option<String>) -> (copy: Option<String>)
    ensures
        text_view(copy) == text_view(*text),
{
    match text {
        Some(t) => Some(t.clone()),
        None => None,
    }
}

impl HostValue {
    /// A copy of the value, arrays and all.
    pub fn duplicate(&self) -> (copy: HostValue)
        ensures
            copy@ == self@,
        decreases self,
    {
        let array = match &self.array {
            Some(items) => {
                let mut copies: Vec<HostValue> = Vec::new();
                let mut i: usize = 0;
                while i < items.len()
                    invariant
                        self.array == Some(*items),
                        i <= items.len(),
                        copies.len() == i,
                        forall|j: int| 0 <= j < i ==> #[trigger] copies[j]@ == items[j]@,
                    decreases items.len() - i,
                {
                    assert(decreases_to!(self.array => self.array->0));
                    copies.push(items[i].duplicate());
                    i += 1;
                }
                proof {
                    lemma_host_views(items@);
                    lemma_host_views(copies@);
                    assert(host_views(copies@) =~= host_views(items@));
                }
                Some(copies)
            },
            None => None,
        };
        let keyword = match &self.keyword {
            Some(k) => Some(k.clone()),
            None => None,
        };
        let identifier = match &self.identifier {
            Some(i) => Some(i.clone()),
            None => None,
        };
        HostValue {
            is_null: self.is_null,
            is_undefined: self.is_undefined,
            safe_integer: self.safe_integer,
            number: copy_text(&self.number),
            string: copy_text(&self.string),
            array,
            keyword,
            identifier,
        }
    }
}

impl Clone for HostValue {
    fn clone(&self) -> (copy: HostValue)
        ensures
            copy@ == self@,
    {
        self.duplicate()
    }
}

impl Ast {
    /// Converts a host value into the syntax tree that it stands for.
    pub fn try_from(value: &HostValue) -> (result: Result<Ast, Error>)
        ensures
            result_view(result) == spec_try_from(value@),
        decreases value,
    {
        if value.is_null {
            return Ok(Ast::Null);
        }
        if value.is_undefined {
            return Ok(Ast::Undefined);
        }
        if let Some(n) = value.safe_integer {
            return Ok(Ast::Int(n));
        }
        if let Some(text) = &value.number {
            return Ok(Ast::Float(text.clone()));
        }
        if let Some(text) = &value.string {
            return Ok(Ast::String(text.clone()));
        }
        if let Some(items) = &value.array {
            return match array_to_ast(items) {
                Ok(list) => Ok(Ast::List(list)),
                Err(e) => Err(e),
            };
        }
        if let Some(k) = &value.keyword {
            return Ok(
                Ast::Keyword {
                    module: k.module.clone(),
                    name: k.name.clone(),
                    full_name: k.full_name.clone(),
                    hash_code: k.hash_code,
                },
            );
        }
        if let Some(i) = &value.identifier {
            return Ok(Ast::Identifier { name: i.name.clone(), hash_code: i.hash_code });
        }
        Err(Error::UnknownData(value.duplicate()))
    }
}

/// Converts the items of a host array in order, and stops at the first that has no tree.
pub fn array_to_ast(arr: &Vec<HostValue>) -> (result: Result<Vec<Ast>, Error>)
    ensures
        results_view(result) == spec_array_to_ast(host_views(arr@)),
    decreases arr,
{
    let mut vector: Vec<Ast> = Vec::new();
    let mut i: usize = 0;
    proof {
        lemma_host_views(arr@);
        assert(ast_views(vector@) =~= Seq::<AstView>::empty());
    }
    while i < arr.len()
        invariant
            i <= arr.len(),
            spec_array_to_ast(host_views(arr@).take(i as int)) == Ok::<
                Seq<AstView>,
                ErrorView,
            >(ast_views(vector@)),
        decreases arr.len() - i,
    {
        proof {
            lemma_host_views(arr@);
            let next = host_views(arr@).take(i + 1);
            assert(next.drop_last() =~= host_views(arr@).take(i as int));
        }
        match Ast::try_from(&arr[i]) {
            Ok(ast) => {
                proof {
                    lemma_ast_views_push(vector@, ast);
                }
                vector.push(ast);
            },
            Err(err) => {
                proof {
                    lemma_first_failure(host_views(arr@), i as int);
                }
                return Err(err);
            },
        }
        i += 1;
    }
    assert(host_views(arr@).take(i as int) =~= host_views(arr@));
    Ok(vector)
}

/// Once the items before `at` have trees and the item at `at` has none, the whole array fails
/// with that item's error.
proof fn lemma_first_failure(items: Seq<HostValueView>, at: int)
    requires
        0 <= at < items.len(),
        spec_array_to_ast(items.take(at)) is Ok,
        spec_try_from(items[at]) is Err,
    ensures
        spec_array_to_ast(items) == Err::<Seq<AstView>, ErrorView>(spec_try_from(items[at])->Err_0),
    decreases items.len() - at,
{
    assert(items.take(at + 1).drop_last() =~= items.take(at));
    lemma_failure_stays(items, at + 1);
}

/// A failure of a front part of the array is the failure of the whole.
proof fn lemma_failure_stays(items: Seq<HostValueView>, upto: int)
    requires
        0 <= upto <= items.len(),
        spec_array_to_ast(items.take(upto)) is Err,
    ensures
        spec_array_to_ast(items) == spec_array_to_ast(items.take(upto)),
    decreases items.len() - upto,
{
    if upto == items.len() {
        assert(items.take(upto) =~= items);
    } else {
        assert(items.take(upto + 1).drop_last() =~= items.take(upto));
        lemma_failure_stays(items, upto + 1);
    }
}

} // verus!
