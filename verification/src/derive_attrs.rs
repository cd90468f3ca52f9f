//! The decisions of the `Config` derive: what its `#[config(...)]` and
//! `#[detail(...)]` attributes say, which of them are errors, and where the
//! configuration file of the derived type lives.
//!
//! The derive's input is given as plain values: every piece of syntax that an
//! error can point at, and every expression that the generated code uses, is
//! referred to by a number that the caller chose for it.
use vstd::prelude::*;

verus! {

/// A message for the compiler, pointed at the piece of input numbered `at`.
pub struct ErrorNote {
    pub at: usize,
    pub message: String,
}

impl View for ErrorNote {
    type V = (usize, Seq<char>);

    open spec fn view(&self) -> (usize, Seq<char>) {
        (self.at, self.message@)
    }
}

/// The form of one item in the arguments of an attribute.
pub enum MetaForm {
    /// A bare path, such as `nested`.
    Path,
    /// A list, such as `comment("...")`, with what its arguments gave when
    /// parsed as one string literal.
    List(Result<String, ErrorNote>),
    /// A name and a value, such as `default = 8080`: the number of the value
    /// expression, and the literal's text where the value is a string literal.
    NameValue { value: usize, string_literal: Option<String> },
}

/// One item in the arguments of an attribute.
pub struct MetaItem {
    /// The item's path, where it is a single identifier.
    pub ident: Option<String>,
    pub form: MetaForm,
    /// The number of the item's syntax.
    pub at: usize,
}

/// One attribute of the struct or of a field.
pub struct AttrItem {
    /// The attribute's path, where it is a single identifier.
    pub ident: Option<String>,
    /// The attribute's arguments as a comma separated list of items, or the
    /// text of the error that parsing them gave.
    pub args: Result<Vec<MetaItem>, String>,
    /// The number of the attribute's syntax.
    pub at: usize,
}

/// One named field of the struct.
pub struct FieldInput {
    /// The field's name.
    pub key: String,
    pub attrs: Vec<AttrItem>,
}

/// What the `#[detail(...)]` attributes of a field say.
pub struct FieldAttrs {
    /// The inline comment of the field.
    pub comment: Option<String>,
    /// The number of the field's default value expression.
    pub default: Option<usize>,
    /// Whether the comments of the field's own type are collected under it.
    pub nested: bool,
}

/// A field with what its attributes say.
pub struct FieldInfo {
    pub key: String,
    pub attrs: FieldAttrs,
}

/// What the `#[config(...)]` attribute of the struct says.
pub struct StructAttrs {
    pub dir_name: Option<String>,
    pub file_name: Option<String>,
}

/// Everything the generated code needs.
pub struct DerivePlan {
    /// The directory under the user's configuration home.
    pub dir_name: String,
    /// The file name within that directory.
    pub file_name: String,
    pub fields: Vec<FieldInfo>,
}

// ---------------------------------------------------------------------------
// Views.
// ---------------------------------------------------------------------------

pub open spec fn notes_view(notes: Seq<ErrorNote>) -> Seq<(usize, Seq<char>)> {
    notes.map_values(|n: ErrorNote| n@)
}

pub open spec fn opt_view(s: Option<String>) -> Option<Seq<char>> {
    match s {
        Some(s) => Some(s@),
        None => None,
    }
}

/// The identifier is exactly `name`.
pub open spec fn names(ident: Option<String>, name: Seq<char>) -> bool {
    ident matches Some(s) && s@ == name
}

/// What the attributes of a field say, as read so far.
pub struct FieldScan {
    pub comment: Option<Seq<char>>,
    pub default: Option<usize>,
    pub nested: bool,
    pub found_comment: bool,
    pub found_default: bool,
    pub errors: Seq<(usize, Seq<char>)>,
}

/// What the attributes of the struct say, as read so far. `aborted` holds the
/// error that ends the reading at once.
pub struct StructScan {
    pub found_config: bool,
    pub found_dir: bool,
    pub found_file: bool,
    pub dir_name: Option<Seq<char>>,
    pub file_name: Option<Seq<char>>,
    pub errors: Seq<(usize, Seq<char>)>,
    pub aborted: Option<(usize, Seq<char>)>,
}

// ---------------------------------------------------------------------------
// Field attributes, stated.
// ---------------------------------------------------------------------------

pub open spec fn empty_field_scan() -> FieldScan {
    FieldScan {
        comment: None,
        default: None,
        nested: false,
        found_comment: false,
        found_default: false,
        errors: Seq::empty(),
    }
}

pub open spec fn with_field_error(st: FieldScan, at: usize, message: Seq<char>) -> FieldScan {
    FieldScan { errors: st.errors.push((at, message)), ..st }
}

/// Reading one item of a `#[detail(...)]` attribute.
pub open spec fn detail_item_step(st: FieldScan, m: MetaItem) -> FieldScan {
    match m.form {
        MetaForm::Path => if names(m.ident, "nested"@) {
            if st.nested {
                with_field_error(st, m.at, "found redundant use of the 'nested' option"@)
            } else {
                FieldScan { nested: true, ..st }
            }
        } else {
            with_field_error(st, m.at, "unknown detail option, expected `default`, `comment', or 'nested'"@)
        },
        MetaForm::List(literal) => if names(m.ident, "comment"@) {
            if st.found_comment {
                with_field_error(st, m.at, "only one 'comment' option can be specified per field"@)
            } else {
                match literal {
                    Ok(text) => FieldScan { found_comment: true, comment: Some(text@), ..st },
                    Err(note) => FieldScan {
                        found_comment: true,
                        errors: st.errors.push(note@),
                        ..st
                    },
                }
            }
        } else {
            with_field_error(st, m.at, "unknown detail option, expected `default`, `comment', or 'nested'"@)
        },
        MetaForm::NameValue { value, string_literal: _ } => if names(m.ident, "default"@) {
            if st.found_default {
                with_field_error(st, m.at, "only one 'default' option can be specified per field"@)
            } else {
                FieldScan { found_default: true, default: Some(value), ..st }
            }
        } else {
            with_field_error(st, m.at, "unknown detail option, expected `default`, `comment', or 'nested'"@)
        },
    }
}

/// Reading the first `n` items of a `#[detail(...)]` attribute.
pub open spec fn detail_items_fold(st: FieldScan, items: Seq<MetaItem>, n: nat) -> FieldScan
    decreases n,
{
    if n == 0 || n > items.len() {
        st
    } else {
        detail_item_step(detail_items_fold(st, items, (n - 1) as nat), items[n - 1])
    }
}

/// Reading one attribute of a field.
pub open spec fn field_attr_step(st: FieldScan, a: AttrItem) -> FieldScan {
    if !names(a.ident, "detail"@) {
        with_field_error(st, a.at, "unknown attribute, expected 'detail'"@)
    } else {
        match a.args {
            Err(text) => with_field_error(st, a.at, text@),
            Ok(items) => detail_items_fold(st, items@, items@.len()),
        }
    }
}

/// Reading the first `n` attributes of a field.
pub open spec fn field_attrs_fold(st: FieldScan, attrs: Seq<AttrItem>, n: nat) -> FieldScan
    decreases n,
{
    if n == 0 || n > attrs.len() {
        st
    } else {
        field_attr_step(field_attrs_fold(st, attrs, (n - 1) as nat), attrs[n - 1])
    }
}

/// What the attributes of a field say.
pub open spec fn field_scan(f: FieldInput) -> FieldScan {
    field_attrs_fold(empty_field_scan(), f.attrs@, f.attrs@.len())
}

/// The errors of the first `n` fields, in order.
pub open spec fn fields_errors(fields: Seq<FieldInput>, n: nat) -> Seq<(usize, Seq<char>)>
    decreases n,
{
    if n == 0 || n > fields.len() {
        Seq::empty()
    } else {
        fields_errors(fields, (n - 1) as nat) + field_scan(fields[n - 1]).errors
    }
}

/// The field information agrees with what the field's attributes say.
pub open spec fn field_info_matches(info: FieldInfo, f: FieldInput) -> bool {
    let sc = field_scan(f);
    &&& info.key@ == f.key@
    &&& opt_view(info.attrs.comment) == sc.comment
    &&& info.attrs.default == sc.default
    &&& info.attrs.nested == sc.nested
}

// ---------------------------------------------------------------------------
// Struct attributes, stated.
// ---------------------------------------------------------------------------

pub open spec fn empty_struct_scan() -> StructScan {
    StructScan {
        found_config: false,
        found_dir: false,
        found_file: false,
        dir_name: None,
        file_name: None,
        errors: Seq::empty(),
        aborted: None,
    }
}

pub open spec fn with_struct_error(st: StructScan, at: usize, message: Seq<char>) -> StructScan {
    StructScan { errors: st.errors.push((at, message)), ..st }
}

/// The outcome of reading a string valued option: the literal's text, or the
/// error pointed at the option.
pub open spec fn string_value(string_literal: Option<String>, at: usize) -> Result<Seq<char>, (usize, Seq<char>)> {
    match string_literal {
        Some(s) => Ok(s@),
        None => Err((at, "value must be a string"@)),
    }
}

/// Reading one item of a `#[config(...)]` attribute.
pub open spec fn config_item_step(st: StructScan, m: MetaItem) -> StructScan {
    match m.form {
        MetaForm::NameValue { value: _, string_literal } => if names(m.ident, "dir"@) {
            let st1 = if st.found_dir {
                with_struct_error(st, m.at, "config dir name can only be specified once"@)
            } else {
                st
            };
            let st2 = StructScan { found_dir: true, ..st1 };
            match string_value(string_literal, m.at) {
                Ok(name) => StructScan { dir_name: Some(name), ..st2 },
                Err(note) => StructScan { errors: st2.errors.push(note), ..st2 },
            }
        } else if names(m.ident, "file"@) {
            let st1 = if st.found_file {
                with_struct_error(st, m.at, "config file name can only be specified once"@)
            } else {
                st
            };
            let st2 = StructScan { found_file: true, ..st1 };
            match string_value(string_literal, m.at) {
                Ok(name) => StructScan { file_name: Some(name), ..st2 },
                Err(note) => StructScan { errors: st2.errors.push(note), ..st2 },
            }
        } else {
            with_struct_error(st, m.at, "unknown config option, expected `dir` or `file`"@)
        },
        _ => with_struct_error(st, m.at, "unknown config option, expected `dir` or `file`"@),
    }
}

/// Reading the first `n` items of a `#[config(...)]` attribute.
pub open spec fn config_items_fold(st: StructScan, items: Seq<MetaItem>, n: nat) -> StructScan
    decreases n,
{
    if n == 0 || n > items.len() {
        st
    } else {
        config_item_step(config_items_fold(st, items, (n - 1) as nat), items[n - 1])
    }
}

/// Reading one attribute of the struct: attributes other than `config` are
/// passed over; arguments that do not parse end the reading.
pub open spec fn struct_attr_step(st: StructScan, a: AttrItem) -> StructScan {
    if st.aborted is Some || !names(a.ident, "config"@) {
        st
    } else {
        let st1 = if st.found_config {
            with_struct_error(st, a.at, "config attribute can only be used once"@)
        } else {
            st
        };
        let st2 = StructScan { found_config: true, ..st1 };
        match a.args {
            Err(text) => StructScan { aborted: Some((a.at, text@)), ..st2 },
            Ok(items) => config_items_fold(st2, items@, items@.len()),
        }
    }
}

/// Reading the first `n` attributes of the struct.
pub open spec fn struct_attrs_fold(st: StructScan, attrs: Seq<AttrItem>, n: nat) -> StructScan
    decreases n,
{
    if n == 0 || n > attrs.len() {
        st
    } else {
        struct_attr_step(struct_attrs_fold(st, attrs, (n - 1) as nat), attrs[n - 1])
    }
}

/// What the attributes of the struct say.
pub open spec fn struct_scan(attrs: Seq<AttrItem>) -> StructScan {
    struct_attrs_fold(empty_struct_scan(), attrs, attrs.len())
}

/// The errors that reading the struct's attributes gives.
pub open spec fn struct_errors(attrs: Seq<AttrItem>) -> Seq<(usize, Seq<char>)> {
    let sc = struct_scan(attrs);
    match sc.aborted {
        Some(note) => seq![note],
        None => sc.errors,
    }
}

// ---------------------------------------------------------------------------
// Exec state.
// ---------------------------------------------------------------------------

struct FieldState {
    comment: Option<String>,
    default: Option<usize>,
    nested: bool,
    found_comment: bool,
    found_default: bool,
    errors: Vec<ErrorNote>,
}

impl View for FieldState {
    type V = FieldScan;

    closed spec fn view(&self) -> FieldScan {
        FieldScan {
            comment: opt_view(self.comment),
            default: self.default,
            nested: self.nested,
            found_comment: self.found_comment,
            found_default: self.found_default,
            errors: notes_view(self.errors@),
        }
    }
}

struct StructState {
    found_config: bool,
    found_dir: bool,
    found_file: bool,
    dir_name: Option<String>,
    file_name: Option<String>,
    errors: Vec<ErrorNote>,
}

impl View for StructState {
    type V = StructScan;

    closed spec fn view(&self) -> StructScan {
        StructScan {
            found_config: self.found_config,
            found_dir: self.found_dir,
            found_file: self.found_file,
            dir_name: opt_view(self.dir_name),
            file_name: opt_view(self.file_name),
            errors: notes_view(self.errors@),
            aborted: None,
        }
    }
}

fn copy_note(n: &ErrorNote) -> (r: ErrorNote)
    ensures
        r@ == n@,
{
    ErrorNote { at: n.at, message: n.message.clone() }
}

fn copy_string(s: &Option<String>) -> (r: Option<String>)
    ensures
        opt_view(r) == opt_view(*s),
{
    match s {
        Some(s) => Some(s.clone()),
        None => None,
    }
}

/// Whether the identifier is exactly `name`.
fn is_ident(ident: &Option<String>, name: &str) -> (r: bool)
    ensures
        r == names(*ident, name@),
{
    match ident {
        Some(s) => *s == String::from_str(name),
        None => false,
    }
}

/// Adds an error after those found so far; they stay as they were.
pub fn add_error(errors: &mut Vec<ErrorNote>, new_error: ErrorNote)
    ensures
        notes_view(final(errors)@) == notes_view(old(errors)@).push(new_error@),
{
    let ghost before = errors@;
    errors.push(new_error);
    assert(notes_view(errors@) =~= notes_view(before).push(new_error@));
}

fn note(at: usize, message: &str) -> (r: ErrorNote)
    ensures
        r@ == (at, message@),
{
    ErrorNote { at, message: String::from_str(message) }
}

// ---------------------------------------------------------------------------
// Field attributes.
// ---------------------------------------------------------------------------

fn detail_item(st: &mut FieldState, m: &MetaItem)
    ensures
        final(st)@ == detail_item_step(old(st)@, *m),
{
    match &m.form {
        MetaForm::Path => {
            if is_ident(&m.ident, "nested") {
                if st.nested {
                    add_error(&mut st.errors, note(m.at, "found redundant use of the 'nested' option"));
                } else {
                    st.nested = true;
                }
            } else {
                add_error(
                    &mut st.errors,
                    note(m.at, "unknown detail option, expected `default`, `comment', or 'nested'"),
                );
            }
        },
        MetaForm::List(literal) => {
            if is_ident(&m.ident, "comment") {
                if st.found_comment {
                    add_error(&mut st.errors, note(m.at, "only one 'comment' option can be specified per field"));
                } else {
                    st.found_comment = true;
                    match literal {
                        Ok(text) => {
                            st.comment = Some(text.clone());
                        },
                        Err(e) => {
                            add_error(&mut st.errors, copy_note(e));
                        },
                    }
                }
            } else {
                add_error(
                    &mut st.errors,
                    note(m.at, "unknown detail option, expected `default`, `comment', or 'nested'"),
                );
            }
        },
        MetaForm::NameValue { value, string_literal: _ } => {
            if is_ident(&m.ident, "default") {
                if st.found_default {
                    add_error(&mut st.errors, note(m.at, "only one 'default' option can be specified per field"));
                } else {
                    st.found_default = true;
                    st.default = Some(*value);
                }
            } else {
                add_error(
                    &mut st.errors,
                    note(m.at, "unknown detail option, expected `default`, `comment', or 'nested'"),
                );
            }
        },
    }
}

fn field_attr(st: &mut FieldState, a: &AttrItem)
    ensures
        final(st)@ == field_attr_step(old(st)@, *a),
{
    if !is_ident(&a.ident, "detail") {
        add_error(&mut st.errors, note(a.at, "unknown attribute, expected 'detail'"));
        return;
    }
    match &a.args {
        Err(text) => {
            add_error(&mut st.errors, ErrorNote { at: a.at, message: text.clone() });
        },
        Ok(items) => {
            let mut i: usize = 0;
            while i < items.len()
                invariant
                    i <= items@.len(),
                    st@ == detail_items_fold(old(st)@, items@, i as nat),
                decreases items@.len() - i,
            {
                detail_item(st, &items[i]);
                i = i + 1;
            }
        },
    }
}

/// Reads the attributes of one field.
fn scan_field(f: &FieldInput) -> (r: (FieldAttrs, Vec<ErrorNote>))
    ensures
        opt_view(r.0.comment) == field_scan(*f).comment,
        r.0.default == field_scan(*f).default,
        r.0.nested == field_scan(*f).nested,
        notes_view(r.1@) == field_scan(*f).errors,
{
    let mut st = FieldState {
        comment: None,
        default: None,
        nested: false,
        found_comment: false,
        found_default: false,
        errors: Vec::new(),
    };
    assert(notes_view(st.errors@) =~= Seq::empty());
    let mut i: usize = 0;
    while i < f.attrs.len()
        invariant
            i <= f.attrs@.len(),
            st@ == field_attrs_fold(empty_field_scan(), f.attrs@, i as nat),
        decreases f.attrs@.len() - i,
    {
        field_attr(&mut st, &f.attrs[i]);
        i = i + 1;
    }
    (FieldAttrs { comment: st.comment, default: st.default, nested: st.nested }, st.errors)
}

/// Reads the attributes of every field. Errors of all fields are collected in
/// order; the fields' information comes back only where there is none.
pub fn parse_field_attrs(fields: &Vec<FieldInput>) -> (r: Result<Vec<FieldInfo>, Vec<ErrorNote>>)
    ensures
        match r {
            Ok(infos) => {
                &&& fields_errors(fields@, fields@.len()).len() == 0
                &&& infos@.len() == fields@.len()
                &&& forall|i: int| 0 <= i < fields@.len() ==> field_info_matches(#[trigger] infos@[i], fields@[i])
            },
            Err(errors) => {
                &&& fields_errors(fields@, fields@.len()).len() > 0
                &&& notes_view(errors@) == fields_errors(fields@, fields@.len())
            },
        },
{
    let mut errors: Vec<ErrorNote> = Vec::new();
    let mut output: Vec<FieldInfo> = Vec::new();
    assert(notes_view(errors@) =~= Seq::empty());
    let mut i: usize = 0;
    while i < fields.len()
        invariant
            i <= fields@.len(),
            notes_view(errors@) == fields_errors(fields@, i as nat),
            output@.len() == i,
            forall|j: int| 0 <= j < i ==> field_info_matches(#[trigger] output@[j], fields@[j]),
        decreases fields@.len() - i,
    {
        let (attrs, mut field_errors) = scan_field(&fields[i]);
        let ghost e0 = errors@;
        let ghost fe = field_errors@;
        errors.append(&mut field_errors);
        assert(notes_view(errors@) =~= notes_view(e0) + notes_view(fe));
        output.push(FieldInfo { key: fields[i].key.clone(), attrs });
        i = i + 1;
    }
    if errors.len() > 0 {
        Err(errors)
    } else {
        Ok(output)
    }
}

// ---------------------------------------------------------------------------
// Struct attributes.
// ---------------------------------------------------------------------------

/// The text of a string literal value, or the error pointed at `at`.
pub fn parse_string_expr(string_literal: &Option<String>, at: usize) -> (r: Result<String, ErrorNote>)
    ensures
        match string_value(*string_literal, at) {
            Ok(s) => (r matches Ok(t) && t@ == s),
            Err(n) => (r matches Err(e) && e@ == n),
        },
{
    match string_literal {
        Some(s) => Ok(s.clone()),
        None => Err(note(at, "value must be a string")),
    }
}

fn config_item(st: &mut StructState, m: &MetaItem)
    ensures
        final(st)@ == config_item_step(old(st)@, *m),
{
    match &m.form {
        MetaForm::NameValue { value: _, string_literal } => {
            if is_ident(&m.ident, "dir") {
                if st.found_dir {
                    add_error(&mut st.errors, note(m.at, "config dir name can only be specified once"));
                }
                st.found_dir = true;
                match parse_string_expr(string_literal, m.at) {
                    Ok(name) => {
                        st.dir_name = Some(name);
                    },
                    Err(e) => add_error(&mut st.errors, e),
                }
            } else if is_ident(&m.ident, "file") {
                if st.found_file {
                    add_error(&mut st.errors, note(m.at, "config file name can only be specified once"));
                }
                st.found_file = true;
                match parse_string_expr(string_literal, m.at) {
                    Ok(name) => {
                        st.file_name = Some(name);
                    },
                    Err(e) => add_error(&mut st.errors, e),
                }
            } else {
                add_error(&mut st.errors, note(m.at, "unknown config option, expected `dir` or `file`"));
            }
        },
        _ => {
            add_error(&mut st.errors, note(m.at, "unknown config option, expected `dir` or `file`"));
        },
    }
}

/// Reads the attributes of the struct. Arguments of a `config` attribute that
/// do not parse end the reading with that error alone; other errors are
/// collected in order.
pub fn parse_struct_attrs(attrs: &Vec<AttrItem>) -> (r: Result<StructAttrs, Vec<ErrorNote>>)
    ensures
        ({
            let sc = struct_scan(attrs@);
            match r {
                Ok(sa) => {
                    &&& struct_errors(attrs@).len() == 0
                    &&& opt_view(sa.dir_name) == sc.dir_name
                    &&& opt_view(sa.file_name) == sc.file_name
                },
                Err(errors) => {
                    &&& struct_errors(attrs@).len() > 0
                    &&& notes_view(errors@) == struct_errors(attrs@)
                },
            }
        }),
{
    let mut st = StructState {
        found_config: false,
        found_dir: false,
        found_file: false,
        dir_name: None,
        file_name: None,
        errors: Vec::new(),
    };
    assert(notes_view(st.errors@) =~= Seq::empty());
    let mut i: usize = 0;
    while i < attrs.len()
        invariant
            i <= attrs@.len(),
            st@ == struct_attrs_fold(empty_struct_scan(), attrs@, i as nat),
        decreases attrs@.len() - i,
    {
        let a = &attrs[i];
        if is_ident(&a.ident, "config") {
            if st.found_config {
                add_error(&mut st.errors, note(a.at, "config attribute can only be used once"));
            }
            st.found_config = true;
            match &a.args {
                Err(text) => {
                    let mut only: Vec<ErrorNote> = Vec::new();
                    only.push(ErrorNote { at: a.at, message: text.clone() });
                    proof {
                        lemma_struct_abort_stays(attrs@, (i + 1) as nat, attrs@.len());
                        assert(notes_view(only@) =~= seq![(a.at, text@)]);
                    }
                    return Err(only);
                },
                Ok(items) => {
                    let ghost before = st@;
                    let mut j: usize = 0;
                    while j < items.len()
                        invariant
                            j <= items@.len(),
                            st@ == config_items_fold(before, items@, j as nat),
                        decreases items@.len() - j,
                    {
                        config_item(&mut st, &items[j]);
                        j = j + 1;
                    }
                },
            }
        }
        i = i + 1;
    }
    if st.errors.len() > 0 {
        Err(st.errors)
    } else {
        Ok(StructAttrs { dir_name: st.dir_name, file_name: st.file_name })
    }
}

/// Once the reading of the struct's attributes is aborted, it stays so.
proof fn lemma_struct_abort_stays(attrs: Seq<AttrItem>, k: nat, n: nat)
    requires
        k <= n <= attrs.len(),
        struct_attrs_fold(empty_struct_scan(), attrs, k).aborted is Some,
    ensures
        struct_attrs_fold(empty_struct_scan(), attrs, n) == struct_attrs_fold(empty_struct_scan(), attrs, k),
    decreases n - k,
{
    if n > k {
        lemma_struct_abort_stays(attrs, k, (n - 1) as nat);
    }
}


// ---------------------------------------------------------------------------
// The derive as a whole.
// ---------------------------------------------------------------------------

/// The text that `str::to_lowercase` gives for a text.
pub uninterp spec fn lowercase(text: Seq<char>) -> Seq<char>;

/// Calls `str::to_lowercase`.
/// Claims: the result is the text that `lowercase` names.
#[verifier::external_body]
fn to_lowercase(text: &str) -> (r: String)
    ensures
        r@ == lowercase(text@),
{
    text.to_lowercase()
}

pub open spec fn only_structs_message() -> Seq<char> {
    "Only structs are supported by confkit derive"@
}

/// The directory a configuration lives in: the one the `config` attribute
/// names, else the struct's name in lower case.
pub open spec fn planned_dir(sc: StructScan, struct_name: Seq<char>) -> Seq<char> {
    match sc.dir_name {
        Some(d) => d,
        None => lowercase(struct_name),
    }
}

/// The file a configuration lives in: the one the `config` attribute names,
/// else `config.toml`.
pub open spec fn planned_file(sc: StructScan) -> Seq<char> {
    match sc.file_name {
        Some(f) => f,
        None => "config.toml"@,
    }
}

/// What `plan_derive` gives for a struct named `struct_name` with the given
/// attributes and fields: for a non-struct, the one error pointed at the name;
/// otherwise the errors of the struct's attributes and then those of the
/// fields, or, where there are none, the planned directory, file and fields.
pub open spec fn plan_outcome(
    struct_name: Seq<char>,
    struct_at: usize,
    attrs: Seq<AttrItem>,
    fields: Option<Vec<FieldInput>>,
    r: Result<DerivePlan, Vec<ErrorNote>>,
) -> bool {
    match fields {
        None => (r matches Err(e) && notes_view(e@) == seq![(struct_at, only_structs_message())]),
        Some(fs) => {
            let errors = struct_errors(attrs) + fields_errors(fs@, fs@.len());
            match r {
                Ok(plan) => {
                    &&& errors.len() == 0
                    &&& plan.dir_name@ == planned_dir(struct_scan(attrs), struct_name)
                    &&& plan.file_name@ == planned_file(struct_scan(attrs))
                    &&& plan.fields@.len() == fs@.len()
                    &&& forall|i: int| 0 <= i < fs@.len() ==> field_info_matches(#[trigger] plan.fields@[i], fs@[i])
                },
                Err(e) => errors.len() > 0 && notes_view(e@) == errors,
            }
        },
    }
}

/// Decides what the `Config` derive generates for a struct named
/// `struct_name`: `fields` is `None` where the input is not a struct with named
/// fields. The errors of the struct's attributes come first, then those of the
/// fields; where there are none, the plan names the configuration's directory,
/// its file, and what each field's attributes say.
pub fn plan_derive(
    struct_name: &str,
    struct_at: usize,
    attrs: &Vec<AttrItem>,
    fields: &Option<Vec<FieldInput>>,
) -> (r: Result<DerivePlan, Vec<ErrorNote>>)
    ensures
        plan_outcome(struct_name@, struct_at, attrs@, *fields, r),
{
    let fields = match fields {
        Some(fields) => fields,
        None => {
            let mut only: Vec<ErrorNote> = Vec::new();
            only.push(note(struct_at, "Only structs are supported by confkit derive"));
            assert(notes_view(only@) =~= seq![(struct_at, only_structs_message())]);
            return Err(only);
        },
    };
    let struct_attrs = parse_struct_attrs(attrs);
    let field_infos = parse_field_attrs(fields);
    match (struct_attrs, field_infos) {
        (Ok(sa), Ok(infos)) => {
            let dir_name = match sa.dir_name {
                Some(d) => d,
                None => to_lowercase(struct_name),
            };
            let file_name = match sa.file_name {
                Some(f) => f,
                None => String::from_str("config.toml"),
            };
            assert(struct_errors(attrs@) + fields_errors(fields@, fields@.len()) =~= Seq::empty());
            Ok(DerivePlan { dir_name, file_name, fields: infos })
        },
        (Err(e1), Ok(_)) => {
            assert(fields_errors(fields@, fields@.len()) =~= Seq::empty());
            assert(struct_errors(attrs@) + fields_errors(fields@, fields@.len()) =~= struct_errors(attrs@));
            Err(e1)
        },
        (Ok(_), Err(e2)) => {
            assert(struct_errors(attrs@) + fields_errors(fields@, fields@.len()) =~= fields_errors(fields@, fields@.len()));
            Err(e2)
        },
        (Err(mut e1), Err(mut e2)) => {
            let ghost v1 = e1@;
            let ghost v2 = e2@;
            e1.append(&mut e2);
            assert(notes_view(e1@) =~= notes_view(v1) + notes_view(v2));
            Err(e1)
        },
    }
}


// ---------------------------------------------------------------------------
// Laws.
// ---------------------------------------------------------------------------

proof fn lemma_plain_fields_no_errors(fields: Seq<FieldInput>, n: nat)
    requires
        forall|i: int| 0 <= i < fields.len() ==> (#[trigger] fields[i]).attrs@.len() == 0,
    ensures
        fields_errors(fields, n) == Seq::<(usize, Seq<char>)>::empty(),
    decreases n,
{
    if n > 0 && n <= fields.len() {
        lemma_plain_fields_no_errors(fields, (n - 1) as nat);
        let f = fields[n - 1];
        assert(field_scan(f) == empty_field_scan());
        assert(fields_errors(fields, n) =~= fields_errors(fields, (n - 1) as nat));
    }
}

/// Law: a struct without attributes, whose fields have none either, is
/// configured in the directory named after the struct in lower case, in the
/// file `config.toml`, and its fields have no comment, no default of their own
/// and no nested comments; nothing is an error.
pub proof fn law_plain_struct_defaults(struct_name: Seq<char>, attrs: Seq<AttrItem>, fields: Seq<FieldInput>)
    requires
        attrs.len() == 0,
        forall|i: int| 0 <= i < fields.len() ==> (#[trigger] fields[i]).attrs@.len() == 0,
    ensures
        struct_errors(attrs) + fields_errors(fields, fields.len()) == Seq::<(usize, Seq<char>)>::empty(),
        planned_dir(struct_scan(attrs), struct_name) == lowercase(struct_name),
        planned_file(struct_scan(attrs)) == "config.toml"@,
        forall|i: int|
            0 <= i < fields.len() ==> {
                &&& (#[trigger] field_scan(fields[i])).comment is None
                &&& field_scan(fields[i]).default is None
                &&& !field_scan(fields[i]).nested
            },
{
    lemma_plain_fields_no_errors(fields, fields.len());
    assert(struct_scan(attrs) == empty_struct_scan());
    assert(struct_errors(attrs) + fields_errors(fields, fields.len()) =~= Seq::<(usize, Seq<char>)>::empty());
    assert forall|i: int| 0 <= i < fields.len() implies {
        &&& (#[trigger] field_scan(fields[i])).comment is None
        &&& field_scan(fields[i]).default is None
        &&& !field_scan(fields[i]).nested
    } by {
        assert(fields[i].attrs@.len() == 0);
    }
}

/// Law: an option given twice in the same field is an error, whatever else
/// the field says: the second `nested` item of a `#[detail(...)]` attribute is
/// reported.
pub proof fn law_repeated_nested_is_an_error(st: FieldScan, m1: MetaItem, m2: MetaItem)
    requires
        m1.form is Path,
        m2.form is Path,
        names(m1.ident, "nested"@),
        names(m2.ident, "nested"@),
    ensures
        detail_item_step(detail_item_step(st, m1), m2).errors.contains(
            (m2.at, "found redundant use of the 'nested' option"@),
        ),
{
    let st1 = detail_item_step(st, m1);
    assert(st1.nested);
    let st2 = detail_item_step(st1, m2);
    assert(st2.errors[st2.errors.len() - 1] == (m2.at, "found redundant use of the 'nested' option"@));
}


// ---------------------------------------------------------------------------
// What the options of a field come to.
// ---------------------------------------------------------------------------

pub open spec fn is_nested_item(m: MetaItem) -> bool {
    m.form is Path && names(m.ident, "nested"@)
}

pub open spec fn is_comment_item(m: MetaItem) -> bool {
    m.form is List && names(m.ident, "comment"@)
}

pub open spec fn is_default_item(m: MetaItem) -> bool {
    m.form is NameValue && names(m.ident, "default"@)
}

/// The item is `comment("c")` with a string literal whose text is `c`.
pub open spec fn comment_says(m: MetaItem, c: Seq<char>) -> bool {
    is_comment_item(m) && (m.form->List_0 matches Ok(t) && t@ == c)
}

/// The item is `default = e`, `e` being the number of the expression.
pub open spec fn default_says(m: MetaItem, e: usize) -> bool {
    is_default_item(m) && m.form->value == e
}

/// The items of the `detail` attributes among the first `n` attributes whose
/// arguments parse, in order.
pub open spec fn detail_items_of(attrs: Seq<AttrItem>, n: nat) -> Seq<MetaItem>
    decreases n,
{
    if n == 0 || n > attrs.len() {
        Seq::empty()
    } else {
        let prev = detail_items_of(attrs, (n - 1) as nat);
        let a = attrs[n - 1];
        if names(a.ident, "detail"@) && a.args is Ok {
            prev + a.args->Ok_0@
        } else {
            prev
        }
    }
}

/// What reading a field keeps true of the items read so far.
pub open spec fn options_inv(st: FieldScan, items: Seq<MetaItem>) -> bool {
    &&& st.nested <==> exists|j: int| 0 <= j < items.len() && is_nested_item(#[trigger] items[j])
    &&& st.found_comment <==> exists|j: int| 0 <= j < items.len() && is_comment_item(#[trigger] items[j])
    &&& st.found_default <==> exists|j: int| 0 <= j < items.len() && is_default_item(#[trigger] items[j])
    &&& st.comment matches Some(c) ==> exists|j: int| 0 <= j < items.len() && comment_says(#[trigger] items[j], c)
    &&& st.default matches Some(e) ==> exists|j: int| 0 <= j < items.len() && default_says(#[trigger] items[j], e)
    &&& st.errors.len() == 0 ==> forall|j: int|
        0 <= j < items.len() && is_comment_item(#[trigger] items[j]) ==> (items[j].form->List_0 matches Ok(t)
            && st.comment == Some(t@))
    &&& st.errors.len() == 0 ==> forall|j: int|
        0 <= j < items.len() && is_default_item(#[trigger] items[j]) ==> st.default == Some(items[j].form->value)
}

proof fn lemma_options_step(st: FieldScan, items: Seq<MetaItem>, m: MetaItem)
    requires
        options_inv(st, items),
    ensures
        options_inv(detail_item_step(st, m), items.push(m)),
        detail_item_step(st, m).errors.len() >= st.errors.len(),
{
    let st2 = detail_item_step(st, m);
    let s2 = items.push(m);
    let n = items.len() as int;
    assert(s2[n] == m);
    assert forall|j: int| 0 <= j < n implies s2[j] == items[j] by {}
    if is_nested_item(m) {
        assert(is_nested_item(s2[n]));
    }
    if is_comment_item(m) {
        assert(is_comment_item(s2[n]));
    }
    if is_default_item(m) {
        assert(is_default_item(s2[n]));
    }
    if st2.nested {
        if !st.nested {
            assert(is_nested_item(s2[n]));
        } else {
            let j = choose|j: int| 0 <= j < items.len() && is_nested_item(#[trigger] items[j]);
            assert(is_nested_item(s2[j]));
        }
    }
    if st.nested {
        let j = choose|j: int| 0 <= j < items.len() && is_nested_item(#[trigger] items[j]);
        assert(is_nested_item(s2[j]));
    }
    if st.found_comment {
        let j = choose|j: int| 0 <= j < items.len() && is_comment_item(#[trigger] items[j]);
        assert(is_comment_item(s2[j]));
    }
    if st.found_default {
        let j = choose|j: int| 0 <= j < items.len() && is_default_item(#[trigger] items[j]);
        assert(is_default_item(s2[j]));
    }
    if let Some(c) = st.comment {
        let j = choose|j: int| 0 <= j < items.len() && comment_says(#[trigger] items[j], c);
        assert(comment_says(s2[j], c));
    }
    if let Some(e) = st.default {
        let j = choose|j: int| 0 <= j < items.len() && default_says(#[trigger] items[j], e);
        assert(default_says(s2[j], e));
    }
    if let Some(c) = st2.comment {
        if st2.comment != st.comment {
            assert(comment_says(s2[n], c));
        }
    }
    if let Some(e) = st2.default {
        if st2.default != st.default {
            assert(default_says(s2[n], e));
        }
    }
    if (exists|j: int| 0 <= j < s2.len() && is_nested_item(#[trigger] s2[j])) {
        let j = choose|j: int| 0 <= j < s2.len() && is_nested_item(#[trigger] s2[j]);
        if j < n {
            assert(is_nested_item(items[j]));
        }
    }
    if (exists|j: int| 0 <= j < s2.len() && is_comment_item(#[trigger] s2[j])) {
        let j = choose|j: int| 0 <= j < s2.len() && is_comment_item(#[trigger] s2[j]);
        if j < n {
            assert(is_comment_item(items[j]));
        }
    }
    if (exists|j: int| 0 <= j < s2.len() && is_default_item(#[trigger] s2[j])) {
        let j = choose|j: int| 0 <= j < s2.len() && is_default_item(#[trigger] s2[j]);
        if j < n {
            assert(is_default_item(items[j]));
        }
    }
    if st2.errors.len() == 0 {
        assert(st.errors.len() == 0);
        assert forall|j: int| 0 <= j < s2.len() && is_comment_item(#[trigger] s2[j]) implies (s2[j].form->List_0 matches Ok(t)
            && st2.comment == Some(t@)) by {
            if j < n {
                assert(is_comment_item(items[j]));
            }
        }
        assert forall|j: int| 0 <= j < s2.len() && is_default_item(#[trigger] s2[j]) implies st2.default == Some(s2[j].form->value) by {
            if j < n {
                assert(is_default_item(items[j]));
            }
        }
    }
}

proof fn lemma_options_items(st: FieldScan, prefix: Seq<MetaItem>, items: Seq<MetaItem>, k: nat)
    requires
        options_inv(st, prefix),
        k <= items.len(),
    ensures
        options_inv(detail_items_fold(st, items, k), prefix + items.take(k as int)),
        detail_items_fold(st, items, k).errors.len() >= st.errors.len(),
    decreases k,
{
    if k == 0 {
        assert(prefix + items.take(0) =~= prefix);
    } else {
        lemma_options_items(st, prefix, items, (k - 1) as nat);
        lemma_options_step(
            detail_items_fold(st, items, (k - 1) as nat),
            prefix + items.take(k - 1),
            items[k - 1],
        );
        assert((prefix + items.take(k - 1)).push(items[k - 1]) =~= prefix + items.take(k as int));
    }
}

proof fn lemma_options_attrs(attrs: Seq<AttrItem>, n: nat)
    requires
        n <= attrs.len(),
    ensures
        options_inv(field_attrs_fold(empty_field_scan(), attrs, n), detail_items_of(attrs, n)),
    decreases n,
{
    if n > 0 {
        lemma_options_attrs(attrs, (n - 1) as nat);
        let st = field_attrs_fold(empty_field_scan(), attrs, (n - 1) as nat);
        let prefix = detail_items_of(attrs, (n - 1) as nat);
        let a = attrs[n - 1];
        if names(a.ident, "detail"@) && a.args is Ok {
            let items = a.args->Ok_0@;
            lemma_options_items(st, prefix, items, items.len());
            assert(items.take(items.len() as int) =~= items);
        } else {
            let st2 = field_attr_step(st, a);
            assert(st2.errors.len() > 0);
            assert(st2 == FieldScan { errors: st2.errors, ..st });
        }
    }
}

/// Law: a field's `nested` is set exactly when a `detail` attribute of it has
/// the option `nested`; where reading the field gives no error, its comment is
/// `c` exactly when an option `comment("c")` is given, and its default is `e`
/// exactly when an option `default = e` is given. A field without these
/// options has no comment, no default and is not nested.
pub proof fn law_field_options(f: FieldInput)
    ensures
        ({
            let sc = field_scan(f);
            let items = detail_items_of(f.attrs@, f.attrs@.len());
            &&& sc.nested <==> exists|j: int| 0 <= j < items.len() && is_nested_item(#[trigger] items[j])
            &&& sc.comment matches Some(c) ==> exists|j: int| 0 <= j < items.len() && comment_says(#[trigger] items[j], c)
            &&& sc.default matches Some(e) ==> exists|j: int| 0 <= j < items.len() && default_says(#[trigger] items[j], e)
            &&& sc.errors.len() == 0 ==> forall|j: int, c: Seq<char>|
                #![trigger comment_says(items[j], c)]
                0 <= j < items.len() && comment_says(items[j], c) ==> sc.comment == Some(c)
            &&& sc.errors.len() == 0 ==> forall|j: int, e: usize|
                #![trigger default_says(items[j], e)]
                0 <= j < items.len() && default_says(items[j], e) ==> sc.default == Some(e)
        }),
{
    lemma_options_attrs(f.attrs@, f.attrs@.len());
}


/// The item is one of the options a field takes, written as it must be.
pub open spec fn known_option(m: MetaItem) -> bool {
    ||| is_nested_item(m)
    ||| (is_comment_item(m) && m.form->List_0 is Ok)
    ||| is_default_item(m)
}

/// Every item is a known option, and none of the three is given twice.
pub open spec fn options_well_formed(items: Seq<MetaItem>) -> bool {
    &&& forall|j: int| 0 <= j < items.len() ==> known_option(#[trigger] items[j])
    &&& forall|j1: int, j2: int|
        #![trigger items[j1], items[j2]]
        0 <= j1 < j2 < items.len() ==> {
            &&& !(is_nested_item(items[j1]) && is_nested_item(items[j2]))
            &&& !(is_comment_item(items[j1]) && is_comment_item(items[j2]))
            &&& !(is_default_item(items[j1]) && is_default_item(items[j2]))
        }
}

/// Every attribute is a `detail` attribute whose arguments parse.
pub open spec fn detail_attrs_parse(attrs: Seq<AttrItem>) -> bool {
    forall|i: int| 0 <= i < attrs.len() ==> names((#[trigger] attrs[i]).ident, "detail"@) && attrs[i].args is Ok
}

proof fn lemma_wf_push(items: Seq<MetaItem>, m: MetaItem)
    ensures
        options_well_formed(items.push(m)) <==> {
            &&& options_well_formed(items)
            &&& known_option(m)
            &&& !(is_nested_item(m) && exists|j: int| 0 <= j < items.len() && is_nested_item(#[trigger] items[j]))
            &&& !(is_comment_item(m) && exists|j: int| 0 <= j < items.len() && is_comment_item(#[trigger] items[j]))
            &&& !(is_default_item(m) && exists|j: int| 0 <= j < items.len() && is_default_item(#[trigger] items[j]))
        },
{
    let s2 = items.push(m);
    let n = items.len() as int;
    assert(s2[n] == m);
    assert forall|j: int| 0 <= j < n implies s2[j] == items[j] by {}
    if options_well_formed(s2) {
        assert forall|j: int| 0 <= j < items.len() implies known_option(#[trigger] items[j]) by {
            assert(known_option(s2[j]));
        }
        assert forall|j1: int, j2: int|
            #![trigger items[j1], items[j2]]
            0 <= j1 < j2 < items.len() implies {
                &&& !(is_nested_item(items[j1]) && is_nested_item(items[j2]))
                &&& !(is_comment_item(items[j1]) && is_comment_item(items[j2]))
                &&& !(is_default_item(items[j1]) && is_default_item(items[j2]))
            } by {
            assert(s2[j1] == items[j1] && s2[j2] == items[j2]);
        }
        assert(known_option(s2[n]));
        if is_nested_item(m) && exists|j: int| 0 <= j < items.len() && is_nested_item(#[trigger] items[j]) {
            let j = choose|j: int| 0 <= j < items.len() && is_nested_item(#[trigger] items[j]);
            assert(s2[j] == items[j]);
        }
        if is_comment_item(m) && exists|j: int| 0 <= j < items.len() && is_comment_item(#[trigger] items[j]) {
            let j = choose|j: int| 0 <= j < items.len() && is_comment_item(#[trigger] items[j]);
            assert(s2[j] == items[j]);
        }
        if is_default_item(m) && exists|j: int| 0 <= j < items.len() && is_default_item(#[trigger] items[j]) {
            let j = choose|j: int| 0 <= j < items.len() && is_default_item(#[trigger] items[j]);
            assert(s2[j] == items[j]);
        }
    }
    if options_well_formed(items) && known_option(m)
        && !(is_nested_item(m) && exists|j: int| 0 <= j < items.len() && is_nested_item(#[trigger] items[j]))
        && !(is_comment_item(m) && exists|j: int| 0 <= j < items.len() && is_comment_item(#[trigger] items[j]))
        && !(is_default_item(m) && exists|j: int| 0 <= j < items.len() && is_default_item(#[trigger] items[j])) {
        assert forall|j: int| 0 <= j < s2.len() implies known_option(#[trigger] s2[j]) by {
            if j < n {
                assert(known_option(items[j]));
            }
        }
        assert forall|j1: int, j2: int|
            #![trigger s2[j1], s2[j2]]
            0 <= j1 < j2 < s2.len() implies {
                &&& !(is_nested_item(s2[j1]) && is_nested_item(s2[j2]))
                &&& !(is_comment_item(s2[j1]) && is_comment_item(s2[j2]))
                &&& !(is_default_item(s2[j1]) && is_default_item(s2[j2]))
            } by {
            if j2 < n {
                assert(s2[j1] == items[j1] && s2[j2] == items[j2]);
            } else {
                assert(s2[j1] == items[j1]);
                if is_nested_item(items[j1]) {
                    assert(is_nested_item(items[j1]));
                }
            }
        }
    }
}

/// What reading a field keeps true: no error so far exactly when the
/// attributes read so far parsed and the items read so far are well formed.
pub open spec fn clean_inv(st: FieldScan, attrs_ok: bool, items: Seq<MetaItem>) -> bool {
    st.errors.len() == 0 <==> (attrs_ok && options_well_formed(items))
}

proof fn lemma_clean_step(st: FieldScan, attrs_ok: bool, items: Seq<MetaItem>, m: MetaItem)
    requires
        options_inv(st, items),
        clean_inv(st, attrs_ok, items),
    ensures
        clean_inv(detail_item_step(st, m), attrs_ok, items.push(m)),
{
    lemma_wf_push(items, m);
    let st2 = detail_item_step(st, m);
    assert(st2.errors.len() == st.errors.len() || st2.errors.len() == st.errors.len() + 1);
}

proof fn lemma_clean_items(st: FieldScan, attrs_ok: bool, prefix: Seq<MetaItem>, items: Seq<MetaItem>, k: nat)
    requires
        options_inv(st, prefix),
        clean_inv(st, attrs_ok, prefix),
        k <= items.len(),
    ensures
        clean_inv(detail_items_fold(st, items, k), attrs_ok, prefix + items.take(k as int)),
    decreases k,
{
    if k == 0 {
        assert(prefix + items.take(0) =~= prefix);
    } else {
        lemma_clean_items(st, attrs_ok, prefix, items, (k - 1) as nat);
        lemma_options_items(st, prefix, items, (k - 1) as nat);
        lemma_clean_step(
            detail_items_fold(st, items, (k - 1) as nat),
            attrs_ok,
            prefix + items.take(k - 1),
            items[k - 1],
        );
        assert((prefix + items.take(k - 1)).push(items[k - 1]) =~= prefix + items.take(k as int));
    }
}

proof fn lemma_clean_attrs(attrs: Seq<AttrItem>, n: nat)
    requires
        n <= attrs.len(),
    ensures
        clean_inv(
            field_attrs_fold(empty_field_scan(), attrs, n),
            detail_attrs_parse(attrs.take(n as int)),
            detail_items_of(attrs, n),
        ),
    decreases n,
{
    if n == 0 {
        assert(detail_attrs_parse(attrs.take(0)));
    } else {
        lemma_clean_attrs(attrs, (n - 1) as nat);
        lemma_options_attrs(attrs, (n - 1) as nat);
        let st = field_attrs_fold(empty_field_scan(), attrs, (n - 1) as nat);
        let prefix = detail_items_of(attrs, (n - 1) as nat);
        let a = attrs[n - 1];
        let before = attrs.take(n - 1);
        let now = attrs.take(n as int);
        assert(now =~= before.push(a));
        assert(detail_attrs_parse(now) <==> (detail_attrs_parse(before) && names(a.ident, "detail"@) && a.args is Ok)) by {
            if detail_attrs_parse(now) {
                assert forall|i: int| 0 <= i < before.len() implies names((#[trigger] before[i]).ident, "detail"@) && before[i].args is Ok by {
                    assert(before[i] == now[i]);
                }
                assert(now[n - 1] == a);
            }
            if detail_attrs_parse(before) && names(a.ident, "detail"@) && a.args is Ok {
                assert forall|i: int| 0 <= i < now.len() implies names((#[trigger] now[i]).ident, "detail"@) && now[i].args is Ok by {
                    if i < n - 1 {
                        assert(before[i] == now[i]);
                    }
                }
            }
        }
        if names(a.ident, "detail"@) && a.args is Ok {
            let items = a.args->Ok_0@;
            lemma_clean_items(st, detail_attrs_parse(before), prefix, items, items.len());
            assert(items.take(items.len() as int) =~= items);
        } else {
            let st2 = field_attr_step(st, a);
            assert(st2.errors.len() > 0);
        }
    }
}

/// Law: reading a field gives no error exactly when every attribute of it is
/// a `detail` attribute whose arguments parse, every option given is `nested`,
/// `comment` with a string literal, or `default = ...`, and none of the three
/// is given twice, across all of the field's `detail` attributes.
pub proof fn law_field_reads_cleanly(f: FieldInput)
    ensures
        field_scan(f).errors.len() == 0 <==> {
            &&& detail_attrs_parse(f.attrs@)
            &&& options_well_formed(detail_items_of(f.attrs@, f.attrs@.len()))
        },
{
    lemma_clean_attrs(f.attrs@, f.attrs@.len());
    assert(f.attrs@.take(f.attrs@.len() as int) =~= f.attrs@);
}


// ---------------------------------------------------------------------------
// What the options of the struct come to.
// ---------------------------------------------------------------------------

pub open spec fn is_dir_item(m: MetaItem) -> bool {
    m.form is NameValue && names(m.ident, "dir"@)
}

pub open spec fn is_file_item(m: MetaItem) -> bool {
    m.form is NameValue && names(m.ident, "file"@)
}

/// The item is `dir = "v"`.
pub open spec fn dir_says(m: MetaItem, v: Seq<char>) -> bool {
    is_dir_item(m) && (m.form->string_literal matches Some(t) && t@ == v)
}

/// The item is `file = "v"`.
pub open spec fn file_says(m: MetaItem, v: Seq<char>) -> bool {
    is_file_item(m) && (m.form->string_literal matches Some(t) && t@ == v)
}

/// The items of the `config` attributes among the first `n` attributes whose
/// arguments parse, in order.
pub open spec fn config_items_of(attrs: Seq<AttrItem>, n: nat) -> Seq<MetaItem>
    decreases n,
{
    if n == 0 || n > attrs.len() {
        Seq::empty()
    } else {
        let prev = config_items_of(attrs, (n - 1) as nat);
        let a = attrs[n - 1];
        if names(a.ident, "config"@) && a.args is Ok {
            prev + a.args->Ok_0@
        } else {
            prev
        }
    }
}

/// What reading the struct keeps true of the items read so far, until the
/// reading is aborted.
pub open spec fn struct_options_inv(st: StructScan, items: Seq<MetaItem>) -> bool {
    &&& st.found_dir <==> exists|j: int| 0 <= j < items.len() && is_dir_item(#[trigger] items[j])
    &&& st.found_file <==> exists|j: int| 0 <= j < items.len() && is_file_item(#[trigger] items[j])
    &&& st.dir_name matches Some(v) ==> exists|j: int| 0 <= j < items.len() && dir_says(#[trigger] items[j], v)
    &&& st.file_name matches Some(v) ==> exists|j: int| 0 <= j < items.len() && file_says(#[trigger] items[j], v)
    &&& st.errors.len() == 0 ==> forall|j: int|
        0 <= j < items.len() && is_dir_item(#[trigger] items[j]) ==> (items[j].form->string_literal matches Some(t)
            && st.dir_name == Some(t@))
    &&& st.errors.len() == 0 ==> forall|j: int|
        0 <= j < items.len() && is_file_item(#[trigger] items[j]) ==> (items[j].form->string_literal matches Some(t)
            && st.file_name == Some(t@))
}

proof fn lemma_struct_options_step(st: StructScan, items: Seq<MetaItem>, m: MetaItem)
    requires
        struct_options_inv(st, items),
    ensures
        struct_options_inv(config_item_step(st, m), items.push(m)),
        config_item_step(st, m).errors.len() >= st.errors.len(),
        config_item_step(st, m).aborted == st.aborted,
        config_item_step(st, m).found_config == st.found_config,
{
    reveal_strlit("dir");
    reveal_strlit("file");
    assert("dir"@.len() == 3 && "file"@.len() == 4);
    assert("dir"@ != "file"@);
    let st2 = config_item_step(st, m);
    let s2 = items.push(m);
    let n = items.len() as int;
    assert(s2[n] == m);
    assert forall|j: int| 0 <= j < n implies s2[j] == items[j] by {}
    if is_dir_item(m) {
        assert(is_dir_item(s2[n]));
    }
    if is_file_item(m) {
        assert(is_file_item(s2[n]));
    }
    if st.found_dir {
        let j = choose|j: int| 0 <= j < items.len() && is_dir_item(#[trigger] items[j]);
        assert(is_dir_item(s2[j]));
    }
    if st.found_file {
        let j = choose|j: int| 0 <= j < items.len() && is_file_item(#[trigger] items[j]);
        assert(is_file_item(s2[j]));
    }
    if let Some(v) = st.dir_name {
        let j = choose|j: int| 0 <= j < items.len() && dir_says(#[trigger] items[j], v);
        assert(dir_says(s2[j], v));
    }
    if let Some(v) = st.file_name {
        let j = choose|j: int| 0 <= j < items.len() && file_says(#[trigger] items[j], v);
        assert(file_says(s2[j], v));
    }
    if let Some(v) = st2.dir_name {
        if st2.dir_name != st.dir_name {
            assert(dir_says(s2[n], v));
        }
    }
    if let Some(v) = st2.file_name {
        if st2.file_name != st.file_name {
            assert(file_says(s2[n], v));
        }
    }
    if (exists|j: int| 0 <= j < s2.len() && is_dir_item(#[trigger] s2[j])) {
        let j = choose|j: int| 0 <= j < s2.len() && is_dir_item(#[trigger] s2[j]);
        if j < n {
            assert(is_dir_item(items[j]));
        }
    }
    if (exists|j: int| 0 <= j < s2.len() && is_file_item(#[trigger] s2[j])) {
        let j = choose|j: int| 0 <= j < s2.len() && is_file_item(#[trigger] s2[j]);
        if j < n {
            assert(is_file_item(items[j]));
        }
    }
    if st2.errors.len() == 0 {
        assert(st.errors.len() == 0);
        assert forall|j: int| 0 <= j < s2.len() && is_dir_item(#[trigger] s2[j]) implies (s2[j].form->string_literal matches Some(t)
            && st2.dir_name == Some(t@)) by {
            if j < n {
                assert(is_dir_item(items[j]));
            }
        }
        assert forall|j: int| 0 <= j < s2.len() && is_file_item(#[trigger] s2[j]) implies (s2[j].form->string_literal matches Some(t)
            && st2.file_name == Some(t@)) by {
            if j < n {
                assert(is_file_item(items[j]));
            }
        }
    }
}

proof fn lemma_struct_options_items(st: StructScan, prefix: Seq<MetaItem>, items: Seq<MetaItem>, k: nat)
    requires
        struct_options_inv(st, prefix),
        k <= items.len(),
    ensures
        struct_options_inv(config_items_fold(st, items, k), prefix + items.take(k as int)),
        config_items_fold(st, items, k).errors.len() >= st.errors.len(),
        config_items_fold(st, items, k).aborted == st.aborted,
        config_items_fold(st, items, k).found_config == st.found_config,
    decreases k,
{
    if k == 0 {
        assert(prefix + items.take(0) =~= prefix);
    } else {
        lemma_struct_options_items(st, prefix, items, (k - 1) as nat);
        lemma_struct_options_step(
            config_items_fold(st, items, (k - 1) as nat),
            prefix + items.take(k - 1),
            items[k - 1],
        );
        assert((prefix + items.take(k - 1)).push(items[k - 1]) =~= prefix + items.take(k as int));
    }
}

proof fn lemma_struct_options_attrs(attrs: Seq<AttrItem>, n: nat)
    requires
        n <= attrs.len(),
    ensures
        struct_attrs_fold(empty_struct_scan(), attrs, n).aborted is None ==> struct_options_inv(
            struct_attrs_fold(empty_struct_scan(), attrs, n),
            config_items_of(attrs, n),
        ),
    decreases n,
{
    if n > 0 {
        lemma_struct_options_attrs(attrs, (n - 1) as nat);
        let st = struct_attrs_fold(empty_struct_scan(), attrs, (n - 1) as nat);
        let prefix = config_items_of(attrs, (n - 1) as nat);
        let a = attrs[n - 1];
        if st.aborted is None && names(a.ident, "config"@) && a.args is Ok {
            let st1 = if st.found_config {
                with_struct_error(st, a.at, "config attribute can only be used once"@)
            } else {
                st
            };
            let st2 = StructScan { found_config: true, ..st1 };
            assert(struct_options_inv(st2, prefix));
            let items = a.args->Ok_0@;
            lemma_struct_options_items(st2, prefix, items, items.len());
            assert(items.take(items.len() as int) =~= items);
        }
    }
}

/// Law: where reading the struct's attributes gives no error, the directory
/// is `v` exactly when an option `dir = "v"` is given, and likewise the file.
/// Without such options both are left to their defaults.
pub proof fn law_struct_options(attrs: Seq<AttrItem>)
    ensures
        ({
            let sc = struct_scan(attrs);
            let items = config_items_of(attrs, attrs.len());
            struct_errors(attrs).len() == 0 ==> {
                &&& sc.dir_name matches Some(v) ==> exists|j: int| 0 <= j < items.len() && dir_says(#[trigger] items[j], v)
                &&& sc.file_name matches Some(v) ==> exists|j: int| 0 <= j < items.len() && file_says(#[trigger] items[j], v)
                &&& forall|j: int, v: Seq<char>|
                    #![trigger dir_says(items[j], v)]
                    0 <= j < items.len() && dir_says(items[j], v) ==> sc.dir_name == Some(v)
                &&& forall|j: int, v: Seq<char>|
                    #![trigger file_says(items[j], v)]
                    0 <= j < items.len() && file_says(items[j], v) ==> sc.file_name == Some(v)
            }
        }),
{
    lemma_struct_options_attrs(attrs, attrs.len());
    let sc = struct_scan(attrs);
    let items = config_items_of(attrs, attrs.len());
    if struct_errors(attrs).len() == 0 {
        assert(sc.aborted is None);
        assert(sc.errors.len() == 0);
        assert forall|j: int, v: Seq<char>|
            #![trigger dir_says(items[j], v)]
            0 <= j < items.len() && dir_says(items[j], v) implies sc.dir_name == Some(v) by {
            assert(is_dir_item(items[j]));
        }
        assert forall|j: int, v: Seq<char>|
            #![trigger file_says(items[j], v)]
            0 <= j < items.len() && file_says(items[j], v) implies sc.file_name == Some(v) by {
            assert(is_file_item(items[j]));
        }
    }
}


/// Every item is `dir = "..."` or `file = "..."` with a string literal, and
/// neither is given twice.
pub open spec fn struct_options_well_formed(items: Seq<MetaItem>) -> bool {
    &&& forall|j: int|
        0 <= j < items.len() ==> ((is_dir_item(#[trigger] items[j]) || is_file_item(items[j]))
            && items[j].form->string_literal is Some)
    &&& forall|j1: int, j2: int|
        #![trigger items[j1], items[j2]]
        0 <= j1 < j2 < items.len() ==> {
            &&& !(is_dir_item(items[j1]) && is_dir_item(items[j2]))
            &&& !(is_file_item(items[j1]) && is_file_item(items[j2]))
        }
}

/// At most one attribute is a `config` attribute, and its arguments parse.
pub open spec fn config_attrs_fine(attrs: Seq<AttrItem>) -> bool {
    &&& forall|i: int| 0 <= i < attrs.len() && names((#[trigger] attrs[i]).ident, "config"@) ==> attrs[i].args is Ok
    &&& forall|i1: int, i2: int|
        #![trigger attrs[i1], attrs[i2]]
        0 <= i1 < i2 < attrs.len() ==> !(names(attrs[i1].ident, "config"@) && names(attrs[i2].ident, "config"@))
}

proof fn lemma_struct_wf_push(items: Seq<MetaItem>, m: MetaItem)
    ensures
        struct_options_well_formed(items.push(m)) <==> {
            &&& struct_options_well_formed(items)
            &&& (is_dir_item(m) || is_file_item(m)) && m.form->string_literal is Some
            &&& !(is_dir_item(m) && exists|j: int| 0 <= j < items.len() && is_dir_item(#[trigger] items[j]))
            &&& !(is_file_item(m) && exists|j: int| 0 <= j < items.len() && is_file_item(#[trigger] items[j]))
        },
{
    let s2 = items.push(m);
    let n = items.len() as int;
    assert(s2[n] == m);
    assert forall|j: int| 0 <= j < n implies s2[j] == items[j] by {}
    if struct_options_well_formed(s2) {
        assert forall|j: int| 0 <= j < items.len() implies ((is_dir_item(#[trigger] items[j]) || is_file_item(items[j]))
            && items[j].form->string_literal is Some) by {
            assert(s2[j] == items[j]);
        }
        assert forall|j1: int, j2: int|
            #![trigger items[j1], items[j2]]
            0 <= j1 < j2 < items.len() implies {
                &&& !(is_dir_item(items[j1]) && is_dir_item(items[j2]))
                &&& !(is_file_item(items[j1]) && is_file_item(items[j2]))
            } by {
            assert(s2[j1] == items[j1] && s2[j2] == items[j2]);
        }
        assert((is_dir_item(s2[n]) || is_file_item(s2[n])) && s2[n].form->string_literal is Some);
        if is_dir_item(m) && exists|j: int| 0 <= j < items.len() && is_dir_item(#[trigger] items[j]) {
            let j = choose|j: int| 0 <= j < items.len() && is_dir_item(#[trigger] items[j]);
            assert(s2[j] == items[j]);
        }
        if is_file_item(m) && exists|j: int| 0 <= j < items.len() && is_file_item(#[trigger] items[j]) {
            let j = choose|j: int| 0 <= j < items.len() && is_file_item(#[trigger] items[j]);
            assert(s2[j] == items[j]);
        }
    }
    if struct_options_well_formed(items) && (is_dir_item(m) || is_file_item(m)) && m.form->string_literal is Some
        && !(is_dir_item(m) && exists|j: int| 0 <= j < items.len() && is_dir_item(#[trigger] items[j]))
        && !(is_file_item(m) && exists|j: int| 0 <= j < items.len() && is_file_item(#[trigger] items[j])) {
        assert forall|j: int| 0 <= j < s2.len() implies ((is_dir_item(#[trigger] s2[j]) || is_file_item(s2[j]))
            && s2[j].form->string_literal is Some) by {
            if j < n {
                assert(s2[j] == items[j]);
            }
        }
        assert forall|j1: int, j2: int|
            #![trigger s2[j1], s2[j2]]
            0 <= j1 < j2 < s2.len() implies {
                &&& !(is_dir_item(s2[j1]) && is_dir_item(s2[j2]))
                &&& !(is_file_item(s2[j1]) && is_file_item(s2[j2]))
            } by {
            assert(s2[j1] == items[j1]);
            if j2 < n {
                assert(s2[j2] == items[j2]);
            }
        }
    }
}

/// No error so far exactly when the items read so far are well formed and
/// `ok` holds.
pub open spec fn struct_clean_inv(st: StructScan, ok: bool, items: Seq<MetaItem>) -> bool {
    st.errors.len() == 0 <==> (ok && struct_options_well_formed(items))
}

proof fn lemma_struct_clean_items(st: StructScan, ok: bool, prefix: Seq<MetaItem>, items: Seq<MetaItem>, k: nat)
    requires
        struct_options_inv(st, prefix),
        struct_clean_inv(st, ok, prefix),
        k <= items.len(),
    ensures
        struct_clean_inv(config_items_fold(st, items, k), ok, prefix + items.take(k as int)),
    decreases k,
{
    reveal_strlit("dir");
    reveal_strlit("file");
    assert("dir"@.len() == 3 && "file"@.len() == 4);
    if k == 0 {
        assert(prefix + items.take(0) =~= prefix);
    } else {
        lemma_struct_clean_items(st, ok, prefix, items, (k - 1) as nat);
        lemma_struct_options_items(st, prefix, items, (k - 1) as nat);
        let st1 = config_items_fold(st, items, (k - 1) as nat);
        let p1 = prefix + items.take(k - 1);
        let m = items[k - 1];
        lemma_struct_wf_push(p1, m);
        let st2 = config_item_step(st1, m);
        assert(st2.errors.len() == 0 <==> (st1.errors.len() == 0 && (is_dir_item(m) || is_file_item(m))
            && m.form->string_literal is Some && !(is_dir_item(m) && st1.found_dir) && !(is_file_item(m)
            && st1.found_file)));
        assert(p1.push(m) =~= prefix + items.take(k as int));
    }
}

/// What reading the struct's attributes keeps true of the attributes read so
/// far.
pub open spec fn struct_attrs_inv(st: StructScan, prefix: Seq<AttrItem>, items: Seq<MetaItem>) -> bool {
    &&& st.aborted is None ==> (st.found_config <==> exists|i: int|
        0 <= i < prefix.len() && names((#[trigger] prefix[i]).ident, "config"@))
    &&& st.aborted is Some ==> !config_attrs_fine(prefix)
    &&& st.aborted is None ==> struct_clean_inv(st, config_attrs_fine(prefix), items)
}

proof fn lemma_fine_push(prefix: Seq<AttrItem>, a: AttrItem)
    ensures
        config_attrs_fine(prefix.push(a)) <==> {
            &&& config_attrs_fine(prefix)
            &&& names(a.ident, "config"@) ==> a.args is Ok
            &&& !(names(a.ident, "config"@) && exists|i: int|
                0 <= i < prefix.len() && names((#[trigger] prefix[i]).ident, "config"@))
        },
{
    let p2 = prefix.push(a);
    let n = prefix.len() as int;
    assert(p2[n] == a);
    assert forall|i: int| 0 <= i < n implies p2[i] == prefix[i] by {}
    if config_attrs_fine(p2) {
        assert forall|i: int| 0 <= i < prefix.len() && names((#[trigger] prefix[i]).ident, "config"@) implies prefix[i].args is Ok by {
            assert(p2[i] == prefix[i]);
        }
        assert forall|i1: int, i2: int|
            #![trigger prefix[i1], prefix[i2]]
            0 <= i1 < i2 < prefix.len() implies !(names(prefix[i1].ident, "config"@) && names(prefix[i2].ident, "config"@)) by {
            assert(p2[i1] == prefix[i1] && p2[i2] == prefix[i2]);
        }
        assert(names(p2[n].ident, "config"@) ==> p2[n].args is Ok);
        if names(a.ident, "config"@) && exists|i: int| 0 <= i < prefix.len() && names((#[trigger] prefix[i]).ident, "config"@) {
            let i = choose|i: int| 0 <= i < prefix.len() && names((#[trigger] prefix[i]).ident, "config"@);
            assert(p2[i] == prefix[i]);
        }
    }
    if config_attrs_fine(prefix) && (names(a.ident, "config"@) ==> a.args is Ok) && !(names(a.ident, "config"@)
        && exists|i: int| 0 <= i < prefix.len() && names((#[trigger] prefix[i]).ident, "config"@)) {
        assert forall|i: int| 0 <= i < p2.len() && names((#[trigger] p2[i]).ident, "config"@) implies p2[i].args is Ok by {
            if i < n {
                assert(p2[i] == prefix[i]);
            }
        }
        assert forall|i1: int, i2: int|
            #![trigger p2[i1], p2[i2]]
            0 <= i1 < i2 < p2.len() implies !(names(p2[i1].ident, "config"@) && names(p2[i2].ident, "config"@)) by {
            assert(p2[i1] == prefix[i1]);
            if i2 < n {
                assert(p2[i2] == prefix[i2]);
            }
        }
    }
}

proof fn lemma_struct_attrs_clean(attrs: Seq<AttrItem>, n: nat)
    requires
        n <= attrs.len(),
    ensures
        struct_attrs_inv(
            struct_attrs_fold(empty_struct_scan(), attrs, n),
            attrs.take(n as int),
            config_items_of(attrs, n),
        ),
    decreases n,
{
    if n == 0 {
        assert(config_attrs_fine(attrs.take(0)));
        assert(struct_options_well_formed(config_items_of(attrs, 0)));
    } else {
        lemma_struct_attrs_clean(attrs, (n - 1) as nat);
        lemma_struct_options_attrs(attrs, (n - 1) as nat);
        let st = struct_attrs_fold(empty_struct_scan(), attrs, (n - 1) as nat);
        let before = attrs.take(n - 1);
        let now = attrs.take(n as int);
        let prefix = config_items_of(attrs, (n - 1) as nat);
        let a = attrs[n - 1];
        assert(now =~= before.push(a));
        lemma_fine_push(before, a);
        assert forall|i: int| 0 <= i < before.len() implies before[i] == now[i] by {}
        if st.aborted is None {
            if (exists|i: int| 0 <= i < now.len() && names((#[trigger] now[i]).ident, "config"@)) {
                let i = choose|i: int| 0 <= i < now.len() && names((#[trigger] now[i]).ident, "config"@);
                if i < n - 1 {
                    assert(names(before[i].ident, "config"@));
                }
            }
            if (exists|i: int| 0 <= i < before.len() && names((#[trigger] before[i]).ident, "config"@)) {
                let i = choose|i: int| 0 <= i < before.len() && names((#[trigger] before[i]).ident, "config"@);
                assert(names(now[i].ident, "config"@));
            }
            if names(a.ident, "config"@) {
                assert(names(now[n - 1].ident, "config"@));
                if a.args is Ok {
                    let st1 = if st.found_config {
                        with_struct_error(st, a.at, "config attribute can only be used once"@)
                    } else {
                        st
                    };
                    let st2 = StructScan { found_config: true, ..st1 };
                    assert(struct_options_inv(st2, prefix));
                    assert(struct_clean_inv(st2, config_attrs_fine(now), prefix));
                    let items = a.args->Ok_0@;
                    lemma_struct_clean_items(st2, config_attrs_fine(now), prefix, items, items.len());
                    lemma_struct_options_items(st2, prefix, items, items.len());
                    assert(items.take(items.len() as int) =~= items);
                }
            }
        }
    }
}

/// Law: reading the struct's attributes gives no error exactly when at most
/// one of them is a `config` attribute, its arguments parse, and each option
/// in it is `dir = "..."` or `file = "..."` with a string literal, neither
/// given twice.
pub proof fn law_struct_reads_cleanly(attrs: Seq<AttrItem>)
    ensures
        struct_errors(attrs).len() == 0 <==> {
            &&& config_attrs_fine(attrs)
            &&& struct_options_well_formed(config_items_of(attrs, attrs.len()))
        },
{
    lemma_struct_attrs_clean(attrs, attrs.len());
    assert(attrs.take(attrs.len() as int) =~= attrs);
}


// ---------------------------------------------------------------------------
// Every offence is reported, once.
// ---------------------------------------------------------------------------

/// The item offends, given the items before it: it is not a known option, or
/// it repeats one of the three.
pub open spec fn offends(before: Seq<MetaItem>, m: MetaItem) -> bool {
    ||| !known_option(m)
    ||| (is_nested_item(m) && exists|j: int| 0 <= j < before.len() && is_nested_item(#[trigger] before[j]))
    ||| (is_comment_item(m) && exists|j: int| 0 <= j < before.len() && is_comment_item(#[trigger] before[j]))
    ||| (is_default_item(m) && exists|j: int| 0 <= j < before.len() && is_default_item(#[trigger] before[j]))
}

/// The number of offending items.
pub open spec fn offence_count(items: Seq<MetaItem>) -> nat
    decreases items.len(),
{
    if items.len() == 0 {
        0
    } else {
        offence_count(items.drop_last()) + if offends(items.drop_last(), items.last()) {
            1nat
        } else {
            0nat
        }
    }
}

/// The number of attributes among the first `n` that are not `detail`
/// attributes whose arguments parse.
pub open spec fn attr_offences(attrs: Seq<AttrItem>, n: nat) -> nat
    decreases n,
{
    if n == 0 || n > attrs.len() {
        0
    } else {
        attr_offences(attrs, (n - 1) as nat) + if names(attrs[n - 1].ident, "detail"@) && attrs[n - 1].args is Ok {
            0nat
        } else {
            1nat
        }
    }
}

/// The number of offences of a field: its attributes and its options.
pub open spec fn field_offences(f: FieldInput) -> nat {
    attr_offences(f.attrs@, f.attrs@.len()) + offence_count(detail_items_of(f.attrs@, f.attrs@.len()))
}

/// The number of offences of the first `n` fields.
pub open spec fn fields_offences(fields: Seq<FieldInput>, n: nat) -> nat
    decreases n,
{
    if n == 0 || n > fields.len() {
        0
    } else {
        fields_offences(fields, (n - 1) as nat) + field_offences(fields[n - 1])
    }
}

proof fn lemma_count_step(st: FieldScan, items: Seq<MetaItem>, m: MetaItem)
    requires
        options_inv(st, items),
    ensures
        detail_item_step(st, m).errors.len() == st.errors.len() + if offends(items, m) {
            1nat
        } else {
            0nat
        },
        offence_count(items.push(m)) == offence_count(items) + if offends(items, m) {
            1nat
        } else {
            0nat
        },
{
    assert(items.push(m).drop_last() =~= items);
}

proof fn lemma_count_items(st: FieldScan, prefix: Seq<MetaItem>, items: Seq<MetaItem>, k: nat)
    requires
        options_inv(st, prefix),
        k <= items.len(),
    ensures
        detail_items_fold(st, items, k).errors.len() + offence_count(prefix) == st.errors.len() + offence_count(
            prefix + items.take(k as int),
        ),
    decreases k,
{
    if k == 0 {
        assert(prefix + items.take(0) =~= prefix);
    } else {
        lemma_count_items(st, prefix, items, (k - 1) as nat);
        lemma_options_items(st, prefix, items, (k - 1) as nat);
        lemma_count_step(detail_items_fold(st, items, (k - 1) as nat), prefix + items.take(k - 1), items[k - 1]);
        assert((prefix + items.take(k - 1)).push(items[k - 1]) =~= prefix + items.take(k as int));
    }
}

proof fn lemma_count_attrs(attrs: Seq<AttrItem>, n: nat)
    requires
        n <= attrs.len(),
    ensures
        field_attrs_fold(empty_field_scan(), attrs, n).errors.len() == attr_offences(attrs, n) + offence_count(
            detail_items_of(attrs, n),
        ),
    decreases n,
{
    if n > 0 {
        lemma_count_attrs(attrs, (n - 1) as nat);
        lemma_options_attrs(attrs, (n - 1) as nat);
        let st = field_attrs_fold(empty_field_scan(), attrs, (n - 1) as nat);
        let prefix = detail_items_of(attrs, (n - 1) as nat);
        let a = attrs[n - 1];
        if names(a.ident, "detail"@) && a.args is Ok {
            let items = a.args->Ok_0@;
            lemma_count_items(st, prefix, items, items.len());
            assert(items.take(items.len() as int) =~= items);
        }
    }
}

/// Law: every offence in the attributes of a field is reported, once, and the
/// reading never stops early: a field gives as many errors as it has
/// attributes that are not `detail` attributes whose arguments parse, plus
/// options that are unknown, malformed or repeated. Over all fields, the
/// errors number the offences of all fields.
pub proof fn law_every_offence_reported(fields: Seq<FieldInput>)
    ensures
        forall|i: int| 0 <= i < fields.len() ==> (#[trigger] field_scan(fields[i])).errors.len() == field_offences(fields[i]),
        fields_errors(fields, fields.len()).len() == fields_offences(fields, fields.len()),
{
    assert forall|i: int| 0 <= i < fields.len() implies (#[trigger] field_scan(fields[i])).errors.len() == field_offences(fields[i]) by {
        lemma_count_attrs(fields[i].attrs@, fields[i].attrs@.len());
    }
    lemma_fields_count(fields, fields.len());
}

proof fn lemma_fields_count(fields: Seq<FieldInput>, n: nat)
    requires
        n <= fields.len(),
    ensures
        fields_errors(fields, n).len() == fields_offences(fields, n),
    decreases n,
{
    if n > 0 {
        lemma_fields_count(fields, (n - 1) as nat);
        lemma_count_attrs(fields[n - 1].attrs@, fields[n - 1].attrs@.len());
    }
}


// ---------------------------------------------------------------------------
// Where the configuration lives.
// ---------------------------------------------------------------------------

/// Law: a plan names as directory the one a `dir = "v"` option gives, else
/// the struct's name in lower case; and as file the one a `file = "v"` option
/// gives, else `config.toml`, whatever else the attributes say.
pub proof fn law_plan_location(
    struct_name: Seq<char>,
    struct_at: usize,
    attrs: Seq<AttrItem>,
    fields: Option<Vec<FieldInput>>,
    plan: DerivePlan,
)
    requires
        plan_outcome(struct_name, struct_at, attrs, fields, Ok(plan)),
    ensures
        ({
            let items = config_items_of(attrs, attrs.len());
            &&& (forall|j: int| 0 <= j < items.len() ==> !is_dir_item(#[trigger] items[j])) ==> plan.dir_name@
                == lowercase(struct_name)
            &&& (forall|j: int| 0 <= j < items.len() ==> !is_file_item(#[trigger] items[j])) ==> plan.file_name@
                == "config.toml"@
            &&& forall|j: int, v: Seq<char>|
                #![trigger dir_says(items[j], v)]
                0 <= j < items.len() && dir_says(items[j], v) ==> plan.dir_name@ == v
            &&& forall|j: int, v: Seq<char>|
                #![trigger file_says(items[j], v)]
                0 <= j < items.len() && file_says(items[j], v) ==> plan.file_name@ == v
        }),
{
    law_struct_options(attrs);
    let items = config_items_of(attrs, attrs.len());
    let sc = struct_scan(attrs);
    assert(fields is Some);
    assert(struct_errors(attrs).len() == 0) by {
        let fs = fields->Some_0;
        assert(struct_errors(attrs) + fields_errors(fs@, fs@.len()) == Seq::<(usize, Seq<char>)>::empty()
            || (struct_errors(attrs) + fields_errors(fs@, fs@.len())).len() == 0);
        assert((struct_errors(attrs) + fields_errors(fs@, fs@.len())).len() == struct_errors(attrs).len()
            + fields_errors(fs@, fs@.len()).len());
    }
    if let Some(v) = sc.dir_name {
        let j = choose|j: int| 0 <= j < items.len() && dir_says(#[trigger] items[j], v);
        assert(is_dir_item(items[j]));
    }
    if let Some(v) = sc.file_name {
        let j = choose|j: int| 0 <= j < items.len() && file_says(#[trigger] items[j], v);
        assert(is_file_item(items[j]));
    }
}

} // verus!
