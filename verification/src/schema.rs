//! The schema of a record: the declaration it is derived from, the rename
//! directives on its fields, and the field descriptors that the two
//! conversions are driven by.

use vstd::prelude::*;
use crate::ordered_map::{compare_keys, KeyOrder};
use crate::value::{Kind, Payload, Value, zero_of};

verus! {

/// The literal on the right-hand side of a `name = ..` argument.
#[derive(Clone, Debug, PartialEq, Eq)]
pub enum Literal {
    /// A string literal, with the text it denotes.
    Str(String),
    /// Any other literal.
    Other,
}

/// One argument inside the brackets of a list attribute.
#[derive(Clone, Debug, PartialEq, Eq)]
pub enum MetaArg {
    /// `path = lit`; `path` is the identifier on the left where it is a single
    /// identifier.
    NameValue { path: Option<String>, lit: Literal },
    /// Any other argument.
    Other,
}

/// The structured form of an attribute.
#[derive(Clone, Debug, PartialEq, Eq)]
pub enum MetaForm {
    /// `word(arg, ..)`
    List(Vec<MetaArg>),
    /// A bare word or `word = lit`.
    Other,
}

/// An attribute on a field. `name` is the word the attribute begins with,
/// where that is a single identifier; `meta` is absent where the attribute's
/// tokens have no structured form.
#[derive(Clone, Debug, PartialEq, Eq)]
pub struct AttrDecl {
    pub name: Option<String>,
    pub meta: Option<MetaForm>,
}

/// The declared type of a field.
#[derive(Clone, Debug, PartialEq, Eq)]
pub enum TypeDecl {
    /// A path type, with its text as written.
    Path(String),
    /// Any other type: a reference, a tuple, an array and so on.
    Other,
}

/// A named field of a struct declaration.
#[derive(Clone, Debug, PartialEq, Eq)]
pub struct FieldDecl {
    pub ident: String,
    pub ty: TypeDecl,
    pub attrs: Vec<AttrDecl>,
}

/// The fields of a struct declaration.
#[derive(Clone, Debug, PartialEq, Eq)]
pub enum FieldList {
    /// `struct S { a: A, .. }`
    Named(Vec<FieldDecl>),
    /// `struct S(A, ..);`
    Unnamed,
    /// `struct S;`
    Unit,
}

/// The body of a declaration.
#[derive(Clone, Debug, PartialEq, Eq)]
pub enum Body {
    Struct(FieldList),
    Enum,
    Union,
}

/// A type declaration that a schema is derived from.
#[derive(Clone, Debug, PartialEq, Eq)]
pub struct Declaration {
    pub ident: String,
    pub data: Body,
}

/// Why a declaration yields no schema.
#[derive(Clone, Copy, Debug, PartialEq, Eq, Structural)]
pub enum SchemaError {
    /// The declaration is an enum or a union.
    NotAStruct,
    /// The struct does not declare its fields with names.
    UnnamedFields,
    /// A rename directive is not of the form `rename(name = "VALUE")`.
    MalformedRename,
    /// A field carries more than one rename directive.
    RedefinedRename,
    /// The declared type of a field is none of the primitive kinds.
    UnsupportedType,
    /// Two fields have the same serialization key.
    DuplicateKey,
}

/// The text that tells of each schema error.
pub open spec fn message_text(error: SchemaError) -> Seq<char> {
    match error {
        SchemaError::NotAStruct => "Implementation Must Be A Struct"@,
        SchemaError::UnnamedFields => "Must have named fields"@,
        SchemaError::MalformedRename => "Must be `#[rename(name = 'VALUE')]`"@,
        SchemaError::RedefinedRename => "Cannot redefine field name multiple times"@,
        SchemaError::UnsupportedType => "Field type must be a primitive kind"@,
        SchemaError::DuplicateKey => "Two fields cannot share one key"@,
    }
}

impl SchemaError {
    /// The text that tells of the error.
    pub fn message(&self) -> (r: &'static str)
        ensures
            r@ == message_text(*self),
    {
        match self {
            SchemaError::NotAStruct => "Implementation Must Be A Struct",
            SchemaError::UnnamedFields => "Must have named fields",
            SchemaError::MalformedRename => "Must be `#[rename(name = 'VALUE')]`",
            SchemaError::RedefinedRename => "Cannot redefine field name multiple times",
            SchemaError::UnsupportedType => "Field type must be a primitive kind",
            SchemaError::DuplicateKey => "Two fields cannot share one key",
        }
    }
}

/// A field of a record: its name, its declared kind, and the key that
/// replaces its name on the map side, if any.
#[derive(Clone, Debug, PartialEq, Eq)]
pub struct FieldDescriptor {
    pub name: String,
    pub kind: Kind,
    pub rename: Option<String>,
}

/// The mathematical content of a [`FieldDescriptor`].
pub ghost struct FieldView {
    pub name: Seq<char>,
    pub kind: Kind,
    pub rename: Option<Seq<char>>,
}

impl FieldView {
    /// The serialization key: the rename where there is one, else the name.
    pub open spec fn key(self) -> Seq<char> {
        match self.rename {
            Some(r) => r,
            None => self.name,
        }
    }
}

/// The text of an optional string.
pub open spec fn text_of(s: Option<String>) -> Option<Seq<char>> {
    match s {
        Some(t) => Some(t@),
        None => None,
    }
}

impl View for FieldDescriptor {
    type V = FieldView;

    open spec fn view(&self) -> FieldView {
        FieldView { name: self.name@, kind: self.kind, rename: text_of(self.rename) }
    }
}

impl FieldDescriptor {
    /// The serialization key of the field.
    pub fn serialization_key(&self) -> (k: &str)
        ensures
            k@ == self@.key(),
    {
        match &self.rename {
            Some(r) => r.as_str(),
            None => self.name.as_str(),
        }
    }
}

/// The static field list of a record type.
#[derive(Clone, Debug, PartialEq, Eq)]
pub struct Schema {
    pub fields: Vec<FieldDescriptor>,
}

impl View for Schema {
    type V = Seq<FieldView>;

    open spec fn view(&self) -> Seq<FieldView> {
        Seq::new(self.fields@.len(), |i: int| self.fields@[i]@)
    }
}

/// The serialization keys of a field list, in declaration order.
pub open spec fn keys_of(s: Seq<FieldView>) -> Seq<Seq<char>> {
    Seq::new(s.len(), |i: int| s[i].key())
}

/// A field list is valid when no two of its fields share a serialization key.
pub open spec fn valid_schema(s: Seq<FieldView>) -> bool {
    keys_of(s).no_duplicates()
}

impl Schema {
    /// The invariant of a schema: its field list is valid.
    pub open spec fn wf(&self) -> bool {
        valid_schema(self@)
    }

    /// Builds a schema from field descriptors, refusing a list in which two
    /// fields share a serialization key.
    pub fn new(fields: Vec<FieldDescriptor>) -> (r: Result<Schema, SchemaError>)
        ensures
            match r {
                Ok(s) => s.fields == fields && s.wf(),
                Err(e) => e == SchemaError::DuplicateKey && !valid_schema(
                    (Schema { fields })@,
                ),
            },
    {
        let s = Schema { fields };
        if s.keys_distinct() {
            Ok(s)
        } else {
            Err(SchemaError::DuplicateKey)
        }
    }

    /// The number of fields.
    pub fn len(&self) -> (n: usize)
        ensures
            n == self@.len(),
    {
        self.fields.len()
    }

    /// Whether no two fields share a serialization key.
    pub fn keys_distinct(&self) -> (r: bool)
        ensures
            r == self.wf(),
    {
        let n: usize = self.fields.len();
        let mut i: usize = 0;
        while i < n
            invariant
                n == self.fields@.len(),
                i <= n,
                forall|a: int, b: int| 0 <= a < b < i ==> keys_of(self@)[a] != keys_of(self@)[b],
            decreases n - i,
        {
            let mut j: usize = 0;
            while j < i
                invariant
                    n == self.fields@.len(),
                    i < n,
                    j <= i,
                    forall|b: int| 0 <= b < j ==> keys_of(self@)[b] != keys_of(self@)[i as int],
                decreases i - j,
            {
                let same = compare_keys(
                    self.fields[j].serialization_key(),
                    self.fields[i].serialization_key(),
                );
                if same == KeyOrder::Same {
                    proof {
                        assert(keys_of(self@)[j as int] == keys_of(self@)[i as int]);
                    }
                    return false;
                }
                j = j + 1;
            }
            i = i + 1;
        }
        true
    }
}

/// The lowercase form of a text, as the standard library computes it.
pub uninterp spec fn lowercase_of(text: Seq<char>) -> Seq<char>;

/// `str::to_lowercase` of the standard library: the result is the lowercase
/// equivalent of the argument, which depends on the argument alone. Nothing
/// more is claimed of it than that it has a name.
#[verifier::external_body]
fn to_lowercase(text: &str) -> (r: String)
    ensures
        r@ == lowercase_of(text@),
{
    text.to_lowercase()
}

/// The kind whose extraction is called by `name`.
pub open spec fn kind_named(name: Seq<char>) -> Option<Kind> {
    if name == "i8"@ {
        Some(Kind::Int8)
    } else if name == "i16"@ {
        Some(Kind::Int16)
    } else if name == "i32"@ {
        Some(Kind::Int32)
    } else if name == "i64"@ {
        Some(Kind::Int64)
    } else if name == "u8"@ {
        Some(Kind::UInt8)
    } else if name == "u16"@ {
        Some(Kind::UInt16)
    } else if name == "u32"@ {
        Some(Kind::UInt32)
    } else if name == "u64"@ {
        Some(Kind::UInt64)
    } else if name == "f32"@ {
        Some(Kind::Float32)
    } else if name == "f64"@ {
        Some(Kind::Float64)
    } else if name == "bool"@ {
        Some(Kind::Bool)
    } else if name == "string"@ {
        Some(Kind::Str)
    } else {
        None
    }
}

/// Whether two texts are the same.
fn same_text(a: &str, b: &str) -> (r: bool)
    ensures
        r == (a@ == b@),
{
    compare_keys(a, b) == KeyOrder::Same
}

/// The kind whose extraction is called by `name`, a lowercase type name;
/// nothing for any other name.
pub fn kind_of_call(name: &str) -> (r: Option<Kind>)
    ensures
        r == kind_named(name@),
{
    if same_text(name, "i8") {
        Some(Kind::Int8)
    } else if same_text(name, "i16") {
        Some(Kind::Int16)
    } else if same_text(name, "i32") {
        Some(Kind::Int32)
    } else if same_text(name, "i64") {
        Some(Kind::Int64)
    } else if same_text(name, "u8") {
        Some(Kind::UInt8)
    } else if same_text(name, "u16") {
        Some(Kind::UInt16)
    } else if same_text(name, "u32") {
        Some(Kind::UInt32)
    } else if same_text(name, "u64") {
        Some(Kind::UInt64)
    } else if same_text(name, "f32") {
        Some(Kind::Float32)
    } else if same_text(name, "f64") {
        Some(Kind::Float64)
    } else if same_text(name, "bool") {
        Some(Kind::Bool)
    } else if same_text(name, "string") {
        Some(Kind::Str)
    } else {
        None
    }
}

/// The name by which the extraction of a kind is called: the lowercase type
/// name that `kind_of_call` maps back to the kind.
pub fn call_name(kind: Kind) -> (r: &'static str)
    ensures
        kind_named(r@) == Some(kind),
{
    proof {
        reveal_strlit("i8");
        reveal_strlit("i16");
        reveal_strlit("i32");
        reveal_strlit("i64");
        reveal_strlit("u8");
        reveal_strlit("u16");
        reveal_strlit("u32");
        reveal_strlit("u64");
        reveal_strlit("f32");
        reveal_strlit("f64");
        reveal_strlit("bool");
        reveal_strlit("string");
    }
    let r = match kind {
        Kind::Int8 => "i8",
        Kind::Int16 => "i16",
        Kind::Int32 => "i32",
        Kind::Int64 => "i64",
        Kind::UInt8 => "u8",
        Kind::UInt16 => "u16",
        Kind::UInt32 => "u32",
        Kind::UInt64 => "u64",
        Kind::Float32 => "f32",
        Kind::Float64 => "f64",
        Kind::Bool => "bool",
        Kind::Str => "string",
    };
    proof {
        assert("i8"@.len() == 2 && "u8"@.len() == 2);
        assert("bool"@.len() == 4 && "string"@.len() == 6);
        assert("i16"@.len() == 3 && "i32"@.len() == 3 && "i64"@.len() == 3);
        assert("u16"@.len() == 3 && "u32"@.len() == 3 && "u64"@.len() == 3);
        assert("f32"@.len() == 3 && "f64"@.len() == 3);
        assert("i8"@[0] == 'i' && "u8"@[0] == 'u');
        assert("i16"@[0] == 'i' && "i32"@[0] == 'i' && "i64"@[0] == 'i');
        assert("u16"@[0] == 'u' && "u32"@[0] == 'u' && "u64"@[0] == 'u');
        assert("f32"@[0] == 'f' && "f64"@[0] == 'f');
        assert("i16"@[1] == '1' && "i32"@[1] == '3' && "i64"@[1] == '6');
        assert("u16"@[1] == '1' && "u32"@[1] == '3' && "u64"@[1] == '6');
        assert("f32"@[1] == '3' && "f64"@[1] == '6');
    }
    r
}

/// The kind that a declared type stands for: that of its lowercase name.
pub open spec fn declared_kind(ty: TypeDecl) -> Option<Kind> {
    match ty {
        TypeDecl::Path(text) => kind_named(lowercase_of(text@)),
        TypeDecl::Other => None,
    }
}

/// The kind that a declared type stands for, if it is a primitive kind.
pub fn resolve_kind(ty: &TypeDecl) -> (r: Option<Kind>)
    ensures
        r == declared_kind(*ty),
{
    match ty {
        TypeDecl::Path(text) => {
            let lowered = to_lowercase(text.as_str());
            kind_of_call(lowered.as_str())
        },
        TypeDecl::Other => None,
    }
}

/// Whether an attribute is a rename directive: whether its name is `rename`.
pub open spec fn is_directive(attr: AttrDecl) -> bool {
    match attr.name {
        Some(n) => n@ == "rename"@,
        None => false,
    }
}

/// The rename directives among the first `n` attributes, in their order.
pub open spec fn directives(attrs: Seq<AttrDecl>, n: int) -> Seq<AttrDecl>
    decreases n,
{
    if n <= 0 {
        Seq::empty()
    } else if is_directive(attrs[n - 1]) {
        directives(attrs, n - 1).push(attrs[n - 1])
    } else {
        directives(attrs, n - 1)
    }
}

/// The key that a rename directive renames its field to, if the directive has
/// the form `rename(name = "VALUE", ..)`.
pub open spec fn rename_target(attr: AttrDecl) -> Option<Seq<char>> {
    match attr.meta {
        Some(MetaForm::List(args)) => if args@.len() > 0 {
            match args@[0] {
                MetaArg::NameValue { path: Some(p), lit: Literal::Str(s) } => if p@ == "name"@ {
                    Some(s@)
                } else {
                    None
                },
                _ => None,
            }
        } else {
            None
        },
        _ => None,
    }
}

/// The rename that a field's attributes declare. Only rename directives
/// count; attributes of any other name are passed over. Without a directive
/// there is no rename; a single well-formed directive gives its target; a
/// malformed first directive and a second directive are errors.
pub open spec fn field_rename(field: FieldDecl) -> Result<Option<Seq<char>>, SchemaError> {
    let found = directives(field.attrs@, field.attrs@.len() as int);
    if found.len() == 0 {
        Ok(None)
    } else {
        match rename_target(found[0]) {
            None => Err(SchemaError::MalformedRename),
            Some(target) => if found.len() >= 2 {
                Err(SchemaError::RedefinedRename)
            } else {
                Ok(Some(target))
            },
        }
    }
}

/// The directives among the first `n` attributes are the first of those
/// among the first `m`, for `n <= m`.
pub proof fn lemma_directives_prefix(attrs: Seq<AttrDecl>, n: int, m: int)
    requires
        0 <= n <= m,
    ensures
        directives(attrs, n).len() <= directives(attrs, m).len(),
        forall|k: int|
            0 <= k < directives(attrs, n).len() ==> directives(attrs, m)[k] == directives(
                attrs,
                n,
            )[k],
    decreases m - n,
{
    if n < m {
        lemma_directives_prefix(attrs, n, m - 1);
    }
}

/// The error of the first among the first `n` fields whose attributes are in
/// error.
pub open spec fn first_rename_error(fields: Seq<FieldDecl>, n: int) -> Option<SchemaError>
    decreases n,
{
    if n <= 0 {
        None
    } else {
        match first_rename_error(fields, n - 1) {
            Some(e) => Some(e),
            None => match field_rename(fields[n - 1]) {
                Err(e) => Some(e),
                Ok(_) => None,
            },
        }
    }
}

/// The renames of a field list, one entry per field in declaration order, or
/// the first error.
pub open spec fn renames_of(fields: FieldList) -> Result<Seq<Option<Seq<char>>>, SchemaError> {
    match fields {
        FieldList::Named(fs) => match first_rename_error(fs@, fs@.len() as int) {
            Some(e) => Err(e),
            None => Ok(Seq::new(fs@.len(), |i: int| field_rename(fs@[i]).unwrap())),
        },
        _ => Err(SchemaError::UnnamedFields),
    }
}

/// The texts of a sequence of optional strings.
pub open spec fn texts_of(v: Seq<Option<String>>) -> Seq<Option<Seq<char>>> {
    Seq::new(v.len(), |i: int| text_of(v[i]))
}

/// An error among the first `n` fields stays the first error of any longer
/// prefix.
pub proof fn lemma_first_rename_error_stays(fields: Seq<FieldDecl>, n: int, m: int)
    requires
        0 <= n <= m,
        first_rename_error(fields, n).is_some(),
    ensures
        first_rename_error(fields, m) == first_rename_error(fields, n),
    decreases m - n,
{
    if n < m {
        lemma_first_rename_error_stays(fields, n, m - 1);
    }
}

/// Whether an attribute is a rename directive.
fn is_rename_attr(attr: &AttrDecl) -> (r: bool)
    ensures
        r == is_directive(*attr),
{
    match &attr.name {
        Some(n) => same_text(n.as_str(), "rename"),
        None => false,
    }
}

/// The key that a rename directive renames its field to.
fn parse_rename_attr(attr: &AttrDecl) -> (r: Option<String>)
    ensures
        text_of(r) == rename_target(*attr),
{
    match &attr.meta {
        Some(MetaForm::List(args)) => {
            if args.len() > 0 {
                match &args[0] {
                    MetaArg::NameValue { path: Some(p), lit: Literal::Str(s) } => {
                        if same_text(p.as_str(), "name") {
                            Some(s.clone())
                        } else {
                            None
                        }
                    },
                    _ => None,
                }
            } else {
                None
            }
        },
        _ => None,
    }
}

/// The rename that the attributes of one field declare.
fn parse_field_rename(field: &FieldDecl) -> (r: Result<Option<String>, SchemaError>)
    ensures
        match r {
            Ok(t) => field_rename(*field) == Ok::<Option<Seq<char>>, SchemaError>(text_of(t)),
            Err(e) => field_rename(*field) == Err::<Option<Seq<char>>, SchemaError>(e),
        },
{
    let ghost attrs = field.attrs@;
    let n: usize = field.attrs.len();
    let mut found: Option<String> = None;
    let mut i: usize = 0;
    while i < n
        invariant
            attrs == field.attrs@,
            n == attrs.len(),
            i <= n,
            found.is_none() ==> directives(attrs, i as int).len() == 0,
            found.is_some() ==> directives(attrs, i as int).len() == 1 && rename_target(
                directives(attrs, i as int)[0],
            ) == text_of(found),
        decreases n - i,
    {
        if is_rename_attr(&field.attrs[i]) {
            proof {
                lemma_directives_prefix(attrs, i + 1, n as int);
            }
            if found.is_some() {
                return Err(SchemaError::RedefinedRename);
            }
            match parse_rename_attr(&field.attrs[i]) {
                None => {
                    return Err(SchemaError::MalformedRename);
                },
                Some(target) => {
                    found = Some(target);
                },
            }
        }
        i = i + 1;
    }
    Ok(found)
}

/// Reads the rename directives of a field list: for each field, in
/// declaration order, the key that replaces its name, if it declares one.
///
/// Attributes of any other name than `rename` are passed over. Fails on a
/// list without names, on a rename directive that is not of the form
/// `rename(name = "VALUE")`, and on a field with more than one rename
/// directive; of several errors the first in declaration order is reported.
pub fn parse_rename_attrs(fields: &FieldList) -> (r: Result<Vec<Option<String>>, SchemaError>)
    ensures
        match r {
            Ok(v) => renames_of(*fields) == Ok::<Seq<Option<Seq<char>>>, SchemaError>(
                texts_of(v@),
            ),
            Err(e) => renames_of(*fields) == Err::<Seq<Option<Seq<char>>>, SchemaError>(e),
        },
{
    match fields {
        FieldList::Named(fs) => {
            let mut renames: Vec<Option<String>> = Vec::new();
            let mut i: usize = 0;
            while i < fs.len()
                invariant
                    *fields == FieldList::Named(*fs),
                    i <= fs@.len(),
                    renames@.len() == i,
                    first_rename_error(fs@, i as int).is_none(),
                    forall|j: int|
                        0 <= j < i ==> field_rename(fs@[j]) == Ok::<Option<Seq<char>>, SchemaError>(
                            text_of(#[trigger] renames@[j]),
                        ),
                decreases fs@.len() - i,
            {
                match parse_field_rename(&fs[i]) {
                    Ok(t) => {
                        renames.push(t);
                    },
                    Err(e) => {
                        proof {
                            assert(first_rename_error(fs@, i + 1) == Some(e));
                            lemma_first_rename_error_stays(fs@, i + 1, fs@.len() as int);
                        }
                        return Err(e);
                    },
                }
                i = i + 1;
            }
            proof {
                assert(texts_of(renames@) =~= Seq::new(
                    fs@.len(),
                    |i: int| field_rename(fs@[i]).unwrap(),
                ));
            }
            Ok(renames)
        },
        _ => Err(SchemaError::UnnamedFields),
    }
}

/// The descriptors of a list of named fields whose kinds are all declared.
pub open spec fn field_views(fs: Seq<FieldDecl>, renames: Seq<Option<Seq<char>>>) -> Seq<
    FieldView,
> {
    Seq::new(
        fs.len(),
        |i: int|
            FieldView {
                name: fs[i].ident@,
                kind: declared_kind(fs[i].ty).unwrap(),
                rename: renames[i],
            },
    )
}

/// Every field is declared with a type that stands for a primitive kind.
pub open spec fn all_kinds_declared(fs: Seq<FieldDecl>) -> bool {
    forall|i: int| 0 <= i < fs.len() ==> declared_kind((#[trigger] fs[i]).ty).is_some()
}

/// The field list that a declaration yields, or why it yields none. Errors
/// are looked for in this order: the shape of the declaration, the rename
/// directives, the declared types, the distinctness of the keys.
pub open spec fn derived(decl: Declaration) -> Result<Seq<FieldView>, SchemaError> {
    match decl.data {
        Body::Struct(FieldList::Named(fs)) => match renames_of(FieldList::Named(fs)) {
            Err(e) => Err(e),
            Ok(renames) => if !all_kinds_declared(fs@) {
                Err(SchemaError::UnsupportedType)
            } else if !valid_schema(field_views(fs@, renames)) {
                Err(SchemaError::DuplicateKey)
            } else {
                Ok(field_views(fs@, renames))
            },
        },
        Body::Struct(_) => Err(SchemaError::UnnamedFields),
        _ => Err(SchemaError::NotAStruct),
    }
}

/// A copy of an optional string.
fn clone_text(s: &Option<String>) -> (r: Option<String>)
    ensures
        text_of(r) == text_of(*s),
{
    match s {
        Some(t) => Some(t.clone()),
        None => None,
    }
}

impl Schema {
    /// Derives the schema of a declared record type.
    pub fn derive(decl: &Declaration) -> (r: Result<Schema, SchemaError>)
        ensures
            match r {
                Ok(s) => s.wf() && derived(*decl) == Ok::<Seq<FieldView>, SchemaError>(s@),
                Err(e) => derived(*decl) == Err::<Seq<FieldView>, SchemaError>(e),
            },
    {
        match &decl.data {
            Body::Struct(fields) => {
                let renames = match parse_rename_attrs(fields) {
                    Ok(v) => v,
                    Err(e) => {
                        return Err(e);
                    },
                };
                match fields {
                    FieldList::Named(fs) => {
                        let mut out: Vec<FieldDescriptor> = Vec::new();
                        let mut i: usize = 0;
                        proof {
                            assert(texts_of(renames@).len() == renames_of(*fields).unwrap().len());
                        }
                        while i < fs.len()
                            invariant
                                decl.data == Body::Struct(FieldList::Named(*fs)),
                                renames_of(FieldList::Named(*fs)) == Ok::<
                                    Seq<Option<Seq<char>>>,
                                    SchemaError,
                                >(texts_of(renames@)),
                                renames@.len() == fs@.len(),
                                i <= fs@.len(),
                                out@.len() == i,
                                forall|j: int|
                                    0 <= j < i ==> declared_kind((#[trigger] fs@[j]).ty).is_some(),
                                forall|j: int|
                                    0 <= j < i ==> (#[trigger] out@[j])@ == field_views(
                                        fs@,
                                        texts_of(renames@),
                                    )[j],
                            decreases fs@.len() - i,
                        {
                            let kind = match resolve_kind(&fs[i].ty) {
                                Some(k) => k,
                                None => {
                                    return Err(SchemaError::UnsupportedType);
                                },
                            };
                            out.push(
                                FieldDescriptor {
                                    name: fs[i].ident.clone(),
                                    kind,
                                    rename: clone_text(&renames[i]),
                                },
                            );
                            i = i + 1;
                        }
                        let schema = Schema { fields: out };
                        proof {
                            assert(schema@ =~= field_views(fs@, texts_of(renames@)));
                        }
                        if schema.keys_distinct() {
                            Ok(schema)
                        } else {
                            Err(SchemaError::DuplicateKey)
                        }
                    },
                    _ => Err(SchemaError::UnnamedFields),
                }
            },
            _ => Err(SchemaError::NotAStruct),
        }
    }

    /// The record of this schema in its default state: every field all-zero
    /// or empty.
    pub fn default_record(&self) -> (r: Record)
        ensures
            r@ == zero_record(self@),
            conforms(self@, r@),
    {
        let mut values: Vec<Value> = Vec::new();
        let mut i: usize = 0;
        while i < self.fields.len()
            invariant
                i <= self.fields@.len(),
                values@.len() == i,
                forall|j: int| 0 <= j < i ==> (#[trigger] values@[j])@ == zero_of(self@[j].kind),
            decreases self.fields@.len() - i,
        {
            values.push(Value::zero(self.fields[i].kind));
            i = i + 1;
        }
        let r = Record { values };
        proof {
            assert(r@ =~= zero_record(self@));
        }
        r
    }

    /// Whether `record` is a record of this schema: one value per field, each
    /// of the field's declared kind.
    pub fn admits(&self, record: &Record) -> (r: bool)
        ensures
            r == conforms(self@, record@),
    {
        if record.values.len() != self.fields.len() {
            return false;
        }
        let mut i: usize = 0;
        while i < self.fields.len()
            invariant
                record.values@.len() == self.fields@.len(),
                i <= self.fields@.len(),
                forall|j: int| 0 <= j < i ==> (#[trigger] record@[j]).kind() == self@[j].kind,
            decreases self.fields@.len() - i,
        {
            if !crate::value::same_kind(record.values[i].kind(), self.fields[i].kind) {
                proof {
                    assert(record@[i as int].kind() != self@[i as int].kind);
                }
                return false;
            }
            i = i + 1;
        }
        true
    }
}

/// A record: the values of its fields, in the declaration order of its schema.
#[derive(Clone, Debug, PartialEq, Eq)]
pub struct Record {
    pub values: Vec<Value>,
}

impl View for Record {
    type V = Seq<Payload>;

    open spec fn view(&self) -> Seq<Payload> {
        Seq::new(self.values@.len(), |i: int| self.values@[i]@)
    }
}

/// A record conforms to a field list when it holds one value per field, each
/// of the field's declared kind.
pub open spec fn conforms(s: Seq<FieldView>, rec: Seq<Payload>) -> bool {
    &&& rec.len() == s.len()
    &&& forall|i: int| 0 <= i < s.len() ==> (#[trigger] rec[i]).kind() == s[i].kind
}

/// The default record of a field list.
pub open spec fn zero_record(s: Seq<FieldView>) -> Seq<Payload> {
    Seq::new(s.len(), |i: int| zero_of(s[i].kind))
}

/// What deriving the record-to-map direction yields: the conversion of
/// records of the declared type into maps.
#[derive(Clone, Debug, PartialEq, Eq)]
pub struct ToMap {
    pub schema: Schema,
}

/// What deriving the map-to-record direction yields: the conversion of maps
/// into records of the declared type.
#[derive(Clone, Debug, PartialEq, Eq)]
pub struct FromMap {
    pub schema: Schema,
}

/// Derives the map-to-record conversion of a declared record type.
///
/// Succeeds exactly on a struct with named fields whose attributes are
/// well-formed rename directives, whose types are primitive kinds and whose
/// serialization keys are pairwise distinct.
pub fn from_map(input: &Declaration) -> (r: Result<FromMap, SchemaError>)
    ensures
        match r {
            Ok(c) => c.schema.wf() && derived(*input) == Ok::<Seq<FieldView>, SchemaError>(
                c.schema@,
            ),
            Err(e) => derived(*input) == Err::<Seq<FieldView>, SchemaError>(e),
        },
{
    match Schema::derive(input) {
        Ok(schema) => Ok(FromMap { schema }),
        Err(e) => Err(e),
    }
}

/// Derives the record-to-map conversion of a declared record type.
///
/// Succeeds exactly on a struct with named fields whose attributes are
/// well-formed rename directives, whose types are primitive kinds and whose
/// serialization keys are pairwise distinct.
pub fn to_map(input_struct: &Declaration) -> (r: Result<ToMap, SchemaError>)
    ensures
        match r {
            Ok(c) => c.schema.wf() && derived(*input_struct) == Ok::<Seq<FieldView>, SchemaError>(
                c.schema@,
            ),
            Err(e) => derived(*input_struct) == Err::<Seq<FieldView>, SchemaError>(e),
        },
{
    match Schema::derive(input_struct) {
        Ok(schema) => Ok(ToMap { schema }),
        Err(e) => Err(e),
    }
}

} // verus!
