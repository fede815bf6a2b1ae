//! Finding the `@connect(selection: …)` directives of a schema: the parts
//! of the GraphQL syntax tree that the search reads, as plain values, and
//! the search itself.
use vstd::prelude::*;
use vstd::utf8::encode_utf8;
use apollo_parser::cst;
use apollo_parser::cst::CstNode;
use apollo_parser::Parser as GqlParser;
use crate::decode::{decode_graphql_string, decoded_string};
use crate::line_index::{LineIndex, line_starts_of, position_of};
use crate::text::{replace_all, replace_str, same_text};

verus! {

// ---------------------------------------------------------------------------
// The parts of the syntax tree that the search reads
// ---------------------------------------------------------------------------

#[verifier::external_type_specification]
#[verifier::external_body]
pub struct ExDefinition(cst::Definition);

#[verifier::external_type_specification]
#[verifier::external_body]
pub struct ExName(cst::Name);

#[verifier::external_type_specification]
#[verifier::external_body]
pub struct ExDirectives(cst::Directives);

#[verifier::external_type_specification]
#[verifier::external_body]
pub struct ExDirective(cst::Directive);

#[verifier::external_type_specification]
#[verifier::external_body]
pub struct ExFieldsDefinition(cst::FieldsDefinition);

#[verifier::external_type_specification]
#[verifier::external_body]
pub struct ExFieldDefinition(cst::FieldDefinition);

#[verifier::external_type_specification]
#[verifier::external_body]
pub struct ExArguments(cst::Arguments);

#[verifier::external_type_specification]
#[verifier::external_body]
pub struct ExArgument(cst::Argument);

/// The value of a directive argument, as far as the search reads it.
pub enum ArgumentValue {
    /// The argument has no value.
    Missing,
    /// A string literal, with its source text (quotes included).
    Str(String),
    /// Any other value.
    NotString,
}

/// A directive argument.
pub struct ArgumentNode {
    pub name: Option<String>,
    pub value: ArgumentValue,
}

/// A directive: its name, the byte offset where it starts, its arguments.
pub struct DirectiveNode {
    pub name: Option<String>,
    pub start: u32,
    pub arguments: Option<Vec<ArgumentNode>>,
}

/// A field definition: its name and directives.
pub struct FieldNode {
    pub name: Option<String>,
    pub directives: Option<Vec<DirectiveNode>>,
}

/// The kinds of definitions that the search looks into.
#[derive(Clone, Copy, Debug, PartialEq, Eq, Structural)]
pub enum DefinitionKind {
    ObjectType,
    ObjectTypeExtension,
    InterfaceType,
    InterfaceTypeExtension,
    Other,
}

/// A top-level definition: its kind, name, directives and fields.
pub struct DefinitionNode {
    pub kind: DefinitionKind,
    pub name: Option<String>,
    pub directives: Option<Vec<DirectiveNode>>,
    pub fields: Option<Vec<FieldNode>>,
}

// ---------------------------------------------------------------------------
// Views of the outline: its texts as character sequences
// ---------------------------------------------------------------------------

pub enum ArgumentValueView {
    Missing,
    Str(Seq<char>),
    NotString,
}

impl View for ArgumentValue {
    type V = ArgumentValueView;

    open spec fn view(&self) -> ArgumentValueView {
        match self {
            ArgumentValue::Missing => ArgumentValueView::Missing,
            ArgumentValue::Str(src) => ArgumentValueView::Str(src@),
            ArgumentValue::NotString => ArgumentValueView::NotString,
        }
    }
}

/// An optional name as characters.
pub open spec fn text_view(n: Option<String>) -> Option<Seq<char>> {
    match n {
        Some(x) => Some(x@),
        None => None,
    }
}

pub struct ArgumentNodeView {
    pub name: Option<Seq<char>>,
    pub value: ArgumentValueView,
}

impl View for ArgumentNode {
    type V = ArgumentNodeView;

    open spec fn view(&self) -> ArgumentNodeView {
        ArgumentNodeView { name: text_view(self.name), value: self.value@ }
    }
}

pub open spec fn argument_views(s: Seq<ArgumentNode>) -> Seq<ArgumentNodeView> {
    s.map_values(|a: ArgumentNode| a@)
}

pub struct DirectiveNodeView {
    pub name: Option<Seq<char>>,
    pub start: u32,
    pub arguments: Option<Seq<ArgumentNodeView>>,
}

impl View for DirectiveNode {
    type V = DirectiveNodeView;

    open spec fn view(&self) -> DirectiveNodeView {
        DirectiveNodeView {
            name: text_view(self.name),
            start: self.start,
            arguments: match self.arguments {
                Some(a) => Some(argument_views(a@)),
                None => None,
            },
        }
    }
}

pub open spec fn directive_views(s: Seq<DirectiveNode>) -> Seq<DirectiveNodeView> {
    s.map_values(|d: DirectiveNode| d@)
}

pub open spec fn opt_directive_views(d: Option<Vec<DirectiveNode>>) -> Option<Seq<DirectiveNodeView>> {
    match d {
        Some(v) => Some(directive_views(v@)),
        None => None,
    }
}

pub struct FieldNodeView {
    pub name: Option<Seq<char>>,
    pub directives: Option<Seq<DirectiveNodeView>>,
}

impl View for FieldNode {
    type V = FieldNodeView;

    open spec fn view(&self) -> FieldNodeView {
        FieldNodeView { name: text_view(self.name), directives: opt_directive_views(self.directives) }
    }
}

pub open spec fn field_views(s: Seq<FieldNode>) -> Seq<FieldNodeView> {
    s.map_values(|f: FieldNode| f@)
}

pub struct DefinitionNodeView {
    pub kind: DefinitionKind,
    pub name: Option<Seq<char>>,
    pub directives: Option<Seq<DirectiveNodeView>>,
    pub fields: Option<Seq<FieldNodeView>>,
}

impl View for DefinitionNode {
    type V = DefinitionNodeView;

    open spec fn view(&self) -> DefinitionNodeView {
        DefinitionNodeView {
            kind: self.kind,
            name: text_view(self.name),
            directives: opt_directive_views(self.directives),
            fields: match self.fields {
                Some(v) => Some(field_views(v@)),
                None => None,
            },
        }
    }
}

/// The views of the definitions of an outline.
pub open spec fn outline_views(s: Seq<DefinitionNode>) -> Seq<DefinitionNodeView> {
    s.map_values(|d: DefinitionNode| d@)
}

/// The outline of a schema text as `apollo-parser` reads it: its top-level
/// definitions, in order, each with what the search reads of it.
pub uninterp spec fn schema_outline(sdl: Seq<char>) -> Seq<DefinitionNodeView>;

/// Calls `apollo_parser::Parser::new(sdl).parse()` and reads each
/// definition of the resulting document (`Document::definitions`) into its
/// outline with `definition_node`. The result is named `schema_outline`:
/// the parser is deterministic, so the outline depends on the text alone.
/// The parser counts offsets in 32 bits (`TextSize`) and panics on a text
/// longer than `u32::MAX` bytes, which `requires` leaves out.
#[verifier::external_body]
fn outline_of(sdl: &str) -> (r: Vec<DefinitionNode>)
    requires
        encode_utf8(sdl@).len() <= u32::MAX,
    ensures
        outline_views(r@) == schema_outline(sdl@),
{
    GqlParser::new(sdl).parse().document().definitions().map(|d| definition_node(&d)).collect()
}

/// Tells the object and interface type definitions and extensions apart
/// from the other definitions, and reads their `name()`, `directives()` and
/// `fields_definition()`. Of the result only this is stated: the other
/// definitions come back as `DefinitionKind::Other` with no parts (the
/// fallback arm below). Which kind a definition is, and its parts, are read
/// from an opaque syntax node and left unsaid.
#[verifier::external_body]
fn definition_parts(def: &cst::Definition) -> (r: (
    DefinitionKind,
    Option<cst::Name>,
    Option<cst::Directives>,
    Option<cst::FieldsDefinition>,
))
    ensures
        r.0 == DefinitionKind::Other ==> r.1 is None && r.2 is None && r.3 is None,
{
    match def {
        cst::Definition::ObjectTypeDefinition(it) => (DefinitionKind::ObjectType, it.name(), it.directives(), it.fields_definition()),
        cst::Definition::ObjectTypeExtension(it) => (DefinitionKind::ObjectTypeExtension, it.name(), it.directives(), it.fields_definition()),
        cst::Definition::InterfaceTypeDefinition(it) => (DefinitionKind::InterfaceType, it.name(), it.directives(), it.fields_definition()),
        cst::Definition::InterfaceTypeExtension(it) => (DefinitionKind::InterfaceTypeExtension, it.name(), it.directives(), it.fields_definition()),
        _ => (DefinitionKind::Other, None, None, None),
    }
}

/// Calls `Name::text`: the text of a name node, opaque here.
#[verifier::external_body]
fn name_text(n: &cst::Name) -> String {
    n.text().to_string()
}

/// Collects `Directives::directives`: the directive nodes of a list.
#[verifier::external_body]
fn directive_list(d: &cst::Directives) -> Vec<cst::Directive> {
    d.directives().collect()
}

/// Collects `FieldsDefinition::field_definitions`: the field nodes of a type.
#[verifier::external_body]
fn field_list(f: &cst::FieldsDefinition) -> Vec<cst::FieldDefinition> {
    f.field_definitions().collect()
}

/// Collects `Arguments::arguments`: the argument nodes of a directive.
#[verifier::external_body]
fn argument_list(a: &cst::Arguments) -> Vec<cst::Argument> {
    a.arguments().collect()
}

/// Reads `FieldDefinition::name()` and `directives()`.
#[verifier::external_body]
fn field_parts(field: &cst::FieldDefinition) -> (Option<cst::Name>, Option<cst::Directives>) {
    (field.name(), field.directives())
}

/// Reads `Directive::name()`, the start of its text range and `arguments()`.
/// Of the result only what the types say is stated: the start is a
/// `TextSize`, a 32-bit byte offset.
#[verifier::external_body]
fn directive_parts(d: &cst::Directive) -> (Option<cst::Name>, u32, Option<cst::Arguments>) {
    (d.name(), u32::from(d.syntax().text_range().start()), d.arguments())
}

/// Reads `Argument::name()` and `value()`, keeping the source text of a
/// string value (`CstNode::source_string`).
#[verifier::external_body]
fn argument_parts(a: &cst::Argument) -> (Option<cst::Name>, ArgumentValue) {
    let value = match a.value() {
        None => ArgumentValue::Missing,
        Some(cst::Value::StringValue(s)) => ArgumentValue::Str(s.source_string()),
        Some(_) => ArgumentValue::NotString,
    };
    (a.name(), value)
}

/// The text of a name node, if there is one.
fn opt_name(n: Option<cst::Name>) -> (r: Option<String>)
    ensures
        r is Some <==> n is Some,
{
    match n {
        Some(n) => Some(name_text(&n)),
        None => None,
    }
}

fn argument_node(a: &cst::Argument) -> ArgumentNode {
    let (name, value) = argument_parts(a);
    ArgumentNode { name: opt_name(name), value }
}

fn directive_node(d: &cst::Directive) -> DirectiveNode {
    let (name, start, args) = directive_parts(d);
    let arguments = match args {
        Some(a) => {
            let list = argument_list(&a);
            let mut nodes: Vec<ArgumentNode> = Vec::new();
            let mut i: usize = 0;
            while i < list.len()
                decreases list.len() - i,
            {
                nodes.push(argument_node(&list[i]));
                i = i + 1;
            }
            Some(nodes)
        },
        None => None,
    };
    DirectiveNode { name: opt_name(name), start, arguments }
}

/// The directives of a list, if there is one.
fn directive_nodes(d: Option<cst::Directives>) -> (r: Option<Vec<DirectiveNode>>)
    ensures
        r is Some <==> d is Some,
{
    match d {
        Some(d) => {
            let list = directive_list(&d);
            let mut nodes: Vec<DirectiveNode> = Vec::new();
            let mut i: usize = 0;
            while i < list.len()
                decreases list.len() - i,
            {
                nodes.push(directive_node(&list[i]));
                i = i + 1;
            }
            Some(nodes)
        },
        None => None,
    }
}

/// The outline of a definition; one that the search does not look into
/// (kind `Other`) has no name, directives or fields.
fn definition_node(def: &cst::Definition) -> (r: DefinitionNode)
    ensures
        r.kind == DefinitionKind::Other ==> r.name is None && r.directives is None
            && r.fields is None,
{
    let (kind, name, directives, fields) = definition_parts(def);
    let fields = match fields {
        Some(f) => {
            let list = field_list(&f);
            let mut nodes: Vec<FieldNode> = Vec::new();
            let mut i: usize = 0;
            while i < list.len()
                decreases list.len() - i,
            {
                let (fname, fdirs) = field_parts(&list[i]);
                nodes.push(FieldNode { name: opt_name(fname), directives: directive_nodes(fdirs) });
                i = i + 1;
            }
            Some(nodes)
        },
        None => None,
    };
    DefinitionNode { kind, name: opt_name(name), directives: directive_nodes(directives), fields }
}

// ---------------------------------------------------------------------------
// The search
// ---------------------------------------------------------------------------

/// The selection of one `@connect` directive: the schema coordinate it
/// sits on, its selection text (decoded, with `$$` normalized to `$`), and
/// the 1-based line and column where the directive starts.
pub struct ConnectSelection {
    pub coordinate: String,
    pub selection: String,
    pub line: usize,
    pub col: usize,
}

pub struct ConnectSelectionView {
    pub coordinate: Seq<char>,
    pub selection: Seq<char>,
    pub line: usize,
    pub col: usize,
}

impl View for ConnectSelection {
    type V = ConnectSelectionView;

    open spec fn view(&self) -> ConnectSelectionView {
        ConnectSelectionView {
            coordinate: self.coordinate@,
            selection: self.selection@,
            line: self.line,
            col: self.col,
        }
    }
}

pub open spec fn selection_views(s: Seq<ConnectSelection>) -> Seq<ConnectSelectionView> {
    s.map_values(|c: ConnectSelection| c@)
}

pub open spec fn is_named(n: Option<Seq<char>>, s: Seq<char>) -> bool {
    n == Some(s)
}

pub open spec fn name_or_empty(n: Option<Seq<char>>) -> Seq<char> {
    match n {
        Some(x) => x,
        None => Seq::empty(),
    }
}

/// The decoded `selection:` argument: the first argument named `selection`
/// whose value is a string. The search gives up at an argument without a
/// name, and at a `selection` argument without a value.
pub open spec fn selection_argument(args: Seq<ArgumentNodeView>) -> Option<Seq<char>>
    decreases args.len(),
{
    if args.len() == 0 {
        None
    } else {
        match args[0].name {
            None => None,
            Some(n) => if n == "selection"@ {
                match args[0].value {
                    ArgumentValueView::Missing => None,
                    ArgumentValueView::Str(src) => Some(decoded_string(src)),
                    ArgumentValueView::NotString => selection_argument(args.drop_first()),
                }
            } else {
                selection_argument(args.drop_first())
            },
        }
    }
}

/// The connect selection a directive yields at `coordinate`, if any.
pub open spec fn connect_selection_of(
    d: DirectiveNodeView,
    coordinate: Seq<char>,
    starts: Seq<int>,
) -> Option<ConnectSelectionView> {
    if !is_named(d.name, "connect"@) {
        None
    } else {
        match d.arguments {
            None => None,
            Some(args) => match selection_argument(args) {
                None => None,
                Some(sel) => {
                    let pos = position_of(starts, d.start as int);
                    Some(
                        ConnectSelectionView {
                            coordinate,
                            selection: replace_all(sel, "$$"@, "$"@),
                            line: pos.0 as usize,
                            col: pos.1 as usize,
                        },
                    )
                },
            },
        }
    }
}

/// The connect selections of a directive list, in order.
pub open spec fn directive_selections(
    ds: Seq<DirectiveNodeView>,
    coordinate: Seq<char>,
    starts: Seq<int>,
) -> Seq<ConnectSelectionView>
    decreases ds.len(),
{
    if ds.len() == 0 {
        Seq::empty()
    } else {
        let p = directive_selections(ds.drop_last(), coordinate, starts);
        match connect_selection_of(ds.last(), coordinate, starts) {
            Some(c) => p.push(c),
            None => p,
        }
    }
}

/// The connect selections on the fields of a type, in order; each field's
/// coordinate is `Type.field`.
pub open spec fn field_selections(
    owner_name: Seq<char>,
    fs: Seq<FieldNodeView>,
    starts: Seq<int>,
) -> Seq<ConnectSelectionView>
    decreases fs.len(),
{
    if fs.len() == 0 {
        Seq::empty()
    } else {
        field_selections(owner_name, fs.drop_last(), starts) + match fs.last().directives {
            Some(ds) => directive_selections(
                ds,
                owner_name + "."@ + name_or_empty(fs.last().name),
                starts,
            ),
            None => Seq::empty(),
        }
    }
}

/// The connect selections of a definition: those on the type itself, then
/// those on its fields; none for definitions other than object and
/// interface types and their extensions.
pub open spec fn definition_selections(def: DefinitionNodeView, starts: Seq<int>) -> Seq<
    ConnectSelectionView,
> {
    if def.kind == DefinitionKind::Other {
        Seq::empty()
    } else {
        let tn = name_or_empty(def.name);
        (match def.directives {
            Some(ds) => directive_selections(ds, tn, starts),
            None => Seq::empty(),
        }) + (match def.fields {
            Some(fs) => field_selections(tn, fs, starts),
            None => Seq::empty(),
        })
    }
}

/// The connect selections of a document, in definition order.
pub open spec fn document_selections(defs: Seq<DefinitionNodeView>, starts: Seq<int>) -> Seq<
    ConnectSelectionView,
>
    decreases defs.len(),
{
    if defs.len() == 0 {
        Seq::empty()
    } else {
        document_selections(defs.drop_last(), starts) + definition_selections(defs.last(), starts)
    }
}

/// Every directive start in the list lies below `usize::MAX`, so that its
/// column can be counted.
pub open spec fn directives_fit(ds: Seq<DirectiveNodeView>) -> bool {
    forall|i: int| 0 <= i < ds.len() ==> ((#[trigger] ds[i]).start as int) < usize::MAX
}

pub open spec fn fields_fit(fs: Seq<FieldNodeView>) -> bool {
    forall|i: int|
        0 <= i < fs.len() ==> ((#[trigger] fs[i]).directives matches Some(ds) ==> directives_fit(ds))
}

/// Every directive start in the outline lies below `usize::MAX`.
pub open spec fn offsets_fit(defs: Seq<DefinitionNodeView>) -> bool {
    forall|i: int|
        0 <= i < defs.len() ==> {
            &&& ((#[trigger] defs[i]).directives matches Some(ds) ==> directives_fit(ds))
            &&& (defs[i].fields matches Some(fs) ==> fields_fit(fs))
        }
}

fn directives_fit_exec(ds: &Vec<DirectiveNode>) -> (r: bool)
    ensures
        r == directives_fit(directive_views(ds@)),
{
    let ghost dv = directive_views(ds@);
    let mut i: usize = 0;
    while i < ds.len()
        invariant
            i <= ds@.len(),
            dv == directive_views(ds@),
            forall|j: int| 0 <= j < i ==> ((#[trigger] dv[j]).start as int) < usize::MAX,
        decreases ds.len() - i,
    {
        assert(dv[i as int] == ds@[i as int]@);
        if ds[i].start as usize == usize::MAX {
            return false;
        }
        i = i + 1;
    }
    true
}

/// Whether every directive start in the outline lies below `usize::MAX`.
pub fn outline_offsets_fit(defs: &Vec<DefinitionNode>) -> (r: bool)
    ensures
        r == offsets_fit(outline_views(defs@)),
{
    let ghost dv = outline_views(defs@);
    let mut i: usize = 0;
    while i < defs.len()
        invariant
            i <= defs@.len(),
            dv == outline_views(defs@),
            forall|j: int|
                0 <= j < i ==> {
                    &&& ((#[trigger] dv[j]).directives matches Some(ds) ==> directives_fit(ds))
                    &&& (dv[j].fields matches Some(fs) ==> fields_fit(fs))
                },
        decreases defs.len() - i,
    {
        let def = &defs[i];
        assert(dv[i as int] == def@);
        match &def.directives {
            Some(ds) => {
                if !directives_fit_exec(ds) {
                    return false;
                }
            },
            None => {},
        }
        match &def.fields {
            Some(fs) => {
                let ghost fv = field_views(fs@);
                let mut k: usize = 0;
                while k < fs.len()
                    invariant
                        k <= fs@.len(),
                        i < defs@.len(),
                        fv == field_views(fs@),
                        dv == outline_views(defs@),
                        dv[i as int].fields == Some(fv),
                        forall|j: int|
                            0 <= j < k ==> ((#[trigger] fv[j]).directives matches Some(ds)
                                ==> directives_fit(ds)),
                    decreases fs.len() - k,
                {
                    assert(fv[k as int] == fs@[k as int]@);
                    match &fs[k].directives {
                        Some(ds) => {
                            if !directives_fit_exec(ds) {
                                assert(!fields_fit(fv));
                                assert(!offsets_fit(dv));
                                return false;
                            }
                        },
                        None => {},
                    }
                    k = k + 1;
                }
            },
            None => {},
        }
        i = i + 1;
    }
    true
}

/// The decoded `selection:` argument of a directive.
pub fn extract_selection(args: &Vec<ArgumentNode>) -> (r: Option<String>)
    ensures
        r matches Some(s) ==> selection_argument(argument_views(args@)) == Some(s@),
        r is None ==> selection_argument(argument_views(args@)) is None,
{
    let ghost av = argument_views(args@);
    let mut i: usize = 0;
    assert(av.skip(0) =~= av);
    while i < args.len()
        invariant
            i <= args@.len(),
            av == argument_views(args@),
            selection_argument(av) == selection_argument(av.skip(i as int)),
        decreases args.len() - i,
    {
        let ghost rest = av.skip(i as int);
        assert(rest[0] == args@[i as int]@);
        assert(rest.drop_first() =~= av.skip(i + 1));
        let arg = &args[i];
        match &arg.name {
            None => {
                return None;
            },
            Some(name) => {
                if same_text(name.as_str(), "selection") {
                    match &arg.value {
                        ArgumentValue::Missing => {
                            return None;
                        },
                        ArgumentValue::Str(src) => {
                            return Some(decode_graphql_string(src.as_str()));
                        },
                        ArgumentValue::NotString => {},
                    }
                }
            },
        }
        i = i + 1;
    }
    None
}

/// The connect selection of a directive at `coordinate`, if it is a
/// `@connect` directive with a string `selection:` argument.
pub fn connect_selection(d: &DirectiveNode, coordinate: &String, index: &LineIndex) -> (r: Option<
    ConnectSelection,
>)
    requires
        (d.start as int) < usize::MAX,
    ensures
        r matches Some(c) ==> connect_selection_of(d@, coordinate@, index.starts()) == Some(c@),
        r is None ==> connect_selection_of(d@, coordinate@, index.starts()) is None,
{
    let is_connect = match &d.name {
        Some(n) => same_text(n.as_str(), "connect"),
        None => false,
    };
    if !is_connect {
        return None;
    }
    let args = match &d.arguments {
        Some(a) => a,
        None => {
            return None;
        },
    };
    let text = match extract_selection(args) {
        Some(t) => t,
        None => {
            return None;
        },
    };
    proof {
        reveal_strlit("$$");
    }
    let normalized = replace_str(text.as_str(), "$$", "$");
    let (line, col) = index.position(d.start as usize);
    Some(ConnectSelection { coordinate: coordinate.clone(), selection: normalized, line, col })
}

/// Collects the connect selections of a directive list.
pub fn scan_directives(
    coordinate: &String,
    directives: &Vec<DirectiveNode>,
    index: &LineIndex,
    out: &mut Vec<ConnectSelection>,
)
    requires
        directives_fit(directive_views(directives@)),
    ensures
        selection_views(final(out)@) == selection_views(old(out)@) + directive_selections(
            directive_views(directives@),
            coordinate@,
            index.starts(),
        ),
{
    let ghost base = selection_views(out@);
    let ghost dv = directive_views(directives@);
    let mut i: usize = 0;
    assert(dv.take(0) =~= Seq::<DirectiveNodeView>::empty());
    assert(selection_views(out@) =~= base + directive_selections(
        dv.take(0),
        coordinate@,
        index.starts(),
    ));
    while i < directives.len()
        invariant
            i <= directives@.len(),
            dv == directive_views(directives@),
            directives_fit(dv),
            selection_views(out@) == base + directive_selections(
                dv.take(i as int),
                coordinate@,
                index.starts(),
            ),
        decreases directives.len() - i,
    {
        let ghost t = dv.take(i + 1);
        assert(t.drop_last() =~= dv.take(i as int));
        assert(t.last() == directives@[i as int]@);
        assert(dv[i as int] == directives@[i as int]@);
        let ghost before = selection_views(out@);
        match connect_selection(&directives[i], coordinate, index) {
            Some(c) => {
                out.push(c);
                assert(selection_views(out@) =~= before.push(c@));
            },
            None => {},
        }
        i = i + 1;
    }
    assert(dv.take(dv.len() as int) =~= dv);
}

/// Collects the connect selections on the fields of a type.
pub fn scan_fields(
    owner_name: &String,
    fields: &Vec<FieldNode>,
    index: &LineIndex,
    out: &mut Vec<ConnectSelection>,
)
    requires
        fields_fit(field_views(fields@)),
    ensures
        selection_views(final(out)@) == selection_views(old(out)@) + field_selections(
            owner_name@,
            field_views(fields@),
            index.starts(),
        ),
{
    let ghost base = selection_views(out@);
    let ghost fv = field_views(fields@);
    let mut i: usize = 0;
    assert(fv.take(0) =~= Seq::<FieldNodeView>::empty());
    assert(selection_views(out@) =~= base + field_selections(
        owner_name@,
        fv.take(0),
        index.starts(),
    ));
    while i < fields.len()
        invariant
            i <= fields@.len(),
            fv == field_views(fields@),
            fields_fit(fv),
            selection_views(out@) == base + field_selections(
                owner_name@,
                fv.take(i as int),
                index.starts(),
            ),
        decreases fields.len() - i,
    {
        let ghost t = fv.take(i + 1);
        assert(t.drop_last() =~= fv.take(i as int));
        assert(t.last() == fields@[i as int]@);
        assert(fv[i as int] == fields@[i as int]@);
        let field = &fields[i];
        match &field.directives {
            Some(ds) => {
                let mut coordinate = owner_name.clone();
                coordinate.append(".");
                match &field.name {
                    Some(n) => coordinate.append(n.as_str()),
                    None => {},
                }
                assert(coordinate@ =~= owner_name@ + "."@ + name_or_empty(text_view(field.name)));
                scan_directives(&coordinate, ds, index, out);
                assert(selection_views(out@) =~= base + field_selections(
                    owner_name@,
                    t,
                    index.starts(),
                ));
            },
            None => {
                assert(selection_views(out@) =~= base + field_selections(
                    owner_name@,
                    t,
                    index.starts(),
                ));
            },
        }
        i = i + 1;
    }
    assert(fv.take(fv.len() as int) =~= fv);
}

/// The connect selections of a schema `sdl` whose definitions are `defs`,
/// in definition order: for each object or interface type (or extension),
/// those on the type, then those on its fields.
pub fn scan_definitions(sdl: &str, defs: &Vec<DefinitionNode>) -> (r: Vec<ConnectSelection>)
    requires
        offsets_fit(outline_views(defs@)),
    ensures
        selection_views(r@) == document_selections(
            outline_views(defs@),
            line_starts_of(encode_utf8(sdl@)),
        ),
{
    let index = LineIndex::new(sdl);
    let ghost starts = line_starts_of(encode_utf8(sdl@));
    let ghost dv = outline_views(defs@);
    let mut out: Vec<ConnectSelection> = Vec::new();
    let mut i: usize = 0;
    assert(dv.take(0) =~= Seq::<DefinitionNodeView>::empty());
    assert(selection_views(out@) =~= document_selections(dv.take(0), starts));
    while i < defs.len()
        invariant
            i <= defs@.len(),
            dv == outline_views(defs@),
            offsets_fit(dv),
            index.starts() == starts,
            selection_views(out@) == document_selections(dv.take(i as int), starts),
        decreases defs.len() - i,
    {
        let ghost t = dv.take(i + 1);
        assert(t.drop_last() =~= dv.take(i as int));
        assert(t.last() == defs@[i as int]@);
        assert(dv[i as int] == defs@[i as int]@);
        let ghost before = selection_views(out@);
        let def = &defs[i];
        if def.kind != DefinitionKind::Other {
            let owner_name = match &def.name {
                Some(n) => n.clone(),
                None => String::new(),
            };
            assert(owner_name@ == name_or_empty(text_view(def.name)));
            match &def.directives {
                Some(ds) => scan_directives(&owner_name, ds, &index, &mut out),
                None => {},
            }
            match &def.fields {
                Some(fs) => scan_fields(&owner_name, fs, &index, &mut out),
                None => {},
            }
        }
        assert(selection_views(out@) =~= before + definition_selections(dv[i as int], starts));
        i = i + 1;
    }
    assert(dv.take(dv.len() as int) =~= dv);
    out
}

/// The connect selections of a schema source text: those of the outline
/// that `apollo-parser` reads from it (`schema_outline`), in definition
/// order. `None` when a directive starts at offset `usize::MAX`, whose
/// column cannot be counted. The parser's offsets are 32-bit, so the text
/// can be at most `u32::MAX` bytes long.
pub fn scan_file(sdl: &str) -> (r: Option<Vec<ConnectSelection>>)
    requires
        encode_utf8(sdl@).len() <= u32::MAX,
    ensures
        r is None <==> !offsets_fit(schema_outline(sdl@)),
        r matches Some(v) ==> selection_views(v@) == document_selections(
            schema_outline(sdl@),
            line_starts_of(encode_utf8(sdl@)),
        ),
{
    let defs = outline_of(sdl);
    if !outline_offsets_fit(&defs) {
        return None;
    }
    let r = scan_definitions(sdl, &defs);
    Some(r)
}

} // verus!
