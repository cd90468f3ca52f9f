//! Reading the token input of the `Config` derive into the plain values that
//! `plan_derive` decides on. `syn` parses; this module numbers the pieces of
//! syntax that errors point at and the default expressions that the generated
//! code uses, and keeps them for the code generator.
use vstd::prelude::*;

use crate::derive_attrs::{
    default_says, detail_items_of, field_info_matches, field_scan, law_field_options, plan_derive, plan_outcome,
    AttrItem, DerivePlan, ErrorNote, FieldInput, MetaForm, MetaItem,
};
use proc_macro2::TokenStream;
use syn::punctuated::Punctuated;
use syn::token::Comma;
use syn::{Attribute, DeriveInput, Expr, Field, LitStr, Meta, MetaList};

verus! {

#[verifier::external_type_specification]
#[verifier::external_body]
pub struct ExTokenStream(TokenStream);

#[verifier::external_type_specification]
#[verifier::external_body]
pub struct ExDeriveInput(DeriveInput);

#[verifier::external_type_specification]
#[verifier::external_body]
pub struct ExAttribute(Attribute);

#[verifier::external_type_specification]
#[verifier::external_body]
pub struct ExMeta(Meta);

#[verifier::external_type_specification]
#[verifier::external_body]
pub struct ExMetaList(MetaList);

#[verifier::external_type_specification]
#[verifier::external_body]
pub struct ExExpr(Expr);

#[verifier::external_type_specification]
#[verifier::external_body]
pub struct ExField(Field);

#[verifier::external_type_specification]
#[verifier::external_body]
pub struct ExSynError(syn::Error);

/// A piece of the input that an error can point at: tokens, or an error that
/// `syn` gave with its own position.
pub enum Origin {
    Tokens(TokenStream),
    Error(syn::Error),
}

/// The pieces of syntax that the numbers of a derive input refer to.
pub struct DeriveSyntax {
    /// `ErrorNote::at` and the `at` fields of the input number these.
    pub origins: Vec<Origin>,
    /// `MetaForm::NameValue::value` numbers these.
    pub exprs: Vec<Expr>,
}

/// The derive input as plain values.
pub struct DeriveInputModel {
    pub name: String,
    pub name_at: usize,
    pub attrs: Vec<AttrItem>,
    /// The named fields, `None` where the input is not a struct with named fields.
    pub fields: Option<Vec<FieldInput>>,
}

/// What reading and planning a derive input gave.
pub struct DeriveReading {
    /// The parsed input, for the code generator.
    pub input: DeriveInput,
    pub model: DeriveInputModel,
    pub syntax: DeriveSyntax,
    pub plan: Result<DerivePlan, Vec<ErrorNote>>,
}

/// The form of a `syn::Meta`, its fields moved out.
pub enum MetaShape {
    Path,
    List(MetaList),
    NameValue(Expr),
}

// ---------------------------------------------------------------------------
// Trusted wrappers around syn. Nothing is claimed of their results: they are
// functions of syntax that the library sees only as opaque values.
// ---------------------------------------------------------------------------

/// Calls `syn::parse2::<DeriveInput>`.
#[verifier::external_body]
fn parse_derive_input(tokens: TokenStream) -> Result<DeriveInput, syn::Error> {
    syn::parse2::<DeriveInput>(tokens)
}

/// Reads the field `DeriveInput::ident` and calls its `to_string`.
#[verifier::external_body]
fn input_name(input: &DeriveInput) -> String {
    input.ident.to_string()
}

/// Calls `ToTokens::to_token_stream` on `DeriveInput::ident`.
#[verifier::external_body]
fn input_name_tokens(input: &DeriveInput) -> TokenStream {
    quote::ToTokens::to_token_stream(&input.ident)
}

/// Clones the field `DeriveInput::attrs`.
#[verifier::external_body]
fn input_attrs(input: &DeriveInput) -> Vec<Attribute> {
    input.attrs.clone()
}

/// Tells `Data::Struct` with `Fields::Named` from the other forms of
/// `DeriveInput::data`, and clones the named fields.
#[verifier::external_body]
fn input_named_fields(input: &DeriveInput) -> Option<Vec<Field>> {
    match &input.data {
        syn::Data::Struct(syn::DataStruct { fields: syn::Fields::Named(named), .. }) => Some(
            named.named.clone().into_iter().collect(),
        ),
        _ => None,
    }
}

/// Reads the field `Field::ident` and calls its `to_string`.
#[verifier::external_body]
fn field_name(field: &Field) -> Option<String> {
    match &field.ident {
        Some(ident) => Some(ident.to_string()),
        None => None,
    }
}

/// Clones the field `Field::attrs`.
#[verifier::external_body]
fn field_attrs(field: &Field) -> Vec<Attribute> {
    field.attrs.clone()
}

/// Calls `Path::get_ident` on `Attribute::path`, and `to_string` on the result.
#[verifier::external_body]
fn attr_ident(attr: &Attribute) -> Option<String> {
    match attr.path().get_ident() {
        Some(ident) => Some(ident.to_string()),
        None => None,
    }
}

/// Calls `ToTokens::to_token_stream` on the attribute.
#[verifier::external_body]
fn attr_tokens(attr: &Attribute) -> TokenStream {
    quote::ToTokens::to_token_stream(attr)
}

/// Calls `Attribute::parse_args_with` with comma separated `Meta` items;
/// the items come back in order, an error as its `Display` text.
#[verifier::external_body]
fn attr_items(attr: &Attribute) -> Result<Vec<Meta>, String> {
    match attr.parse_args_with(Punctuated::<Meta, Comma>::parse_terminated) {
        Ok(items) => Ok(items.into_iter().collect()),
        Err(err) => Err(err.to_string()),
    }
}

/// Calls `Path::get_ident` on `Meta::path`, and `to_string` on the result.
#[verifier::external_body]
fn meta_ident(meta: &Meta) -> Option<String> {
    match meta.path().get_ident() {
        Some(ident) => Some(ident.to_string()),
        None => None,
    }
}

/// Calls `ToTokens::to_token_stream` on the item.
#[verifier::external_body]
fn meta_tokens(meta: &Meta) -> TokenStream {
    quote::ToTokens::to_token_stream(meta)
}

/// Tells the forms of `Meta` apart, moving their fields out.
#[verifier::external_body]
fn meta_shape(meta: Meta) -> MetaShape {
    match meta {
        Meta::Path(_) => MetaShape::Path,
        Meta::List(list) => MetaShape::List(list),
        Meta::NameValue(nv) => MetaShape::NameValue(nv.value),
    }
}

/// Calls `MetaList::parse_args::<LitStr>` and `LitStr::value`.
#[verifier::external_body]
fn list_string_literal(list: &MetaList) -> Result<String, syn::Error> {
    match list.parse_args::<LitStr>() {
        Ok(lit) => Ok(lit.value()),
        Err(err) => Err(err),
    }
}

/// Tells a string literal expression from the other forms of `Expr`, and
/// calls `LitStr::value` on it.
#[verifier::external_body]
fn expr_string_literal(expr: &Expr) -> Option<String> {
    match expr {
        Expr::Lit(syn::ExprLit { lit: syn::Lit::Str(s), .. }) => Some(s.value()),
        _ => None,
    }
}

/// Calls `<syn::Error as Display>::fmt` through `to_string`.
#[verifier::external_body]
fn syn_error_text(err: &syn::Error) -> String {
    err.to_string()
}

// ---------------------------------------------------------------------------
// Numbers stay within the syntax kept.
// ---------------------------------------------------------------------------

pub open spec fn meta_within(m: MetaItem, n_origins: nat, n_exprs: nat) -> bool {
    &&& m.at < n_origins
    &&& match m.form {
        MetaForm::List(Err(note)) => note.at < n_origins,
        MetaForm::NameValue { value, .. } => value < n_exprs,
        _ => true,
    }
}

pub open spec fn attr_within(a: AttrItem, n_origins: nat, n_exprs: nat) -> bool {
    &&& a.at < n_origins
    &&& a.args matches Ok(items) ==> forall|j: int|
        0 <= j < items@.len() ==> meta_within(#[trigger] items@[j], n_origins, n_exprs)
}

pub open spec fn attrs_within(attrs: Seq<AttrItem>, n_origins: nat, n_exprs: nat) -> bool {
    forall|i: int| 0 <= i < attrs.len() ==> attr_within(#[trigger] attrs[i], n_origins, n_exprs)
}

/// Every number in the model refers to a piece of the syntax kept.
pub open spec fn model_within(model: DeriveInputModel, syntax: DeriveSyntax) -> bool {
    let no = syntax.origins@.len();
    let ne = syntax.exprs@.len();
    &&& model.name_at < no
    &&& attrs_within(model.attrs@, no, ne)
    &&& model.fields matches Some(fs) ==> forall|i: int|
        0 <= i < fs@.len() ==> attrs_within((#[trigger] fs@[i]).attrs@, no, ne)
}

proof fn lemma_attr_within_grows(a: AttrItem, no: nat, ne: nat, no2: nat, ne2: nat)
    requires
        attr_within(a, no, ne),
        no <= no2,
        ne <= ne2,
    ensures
        attr_within(a, no2, ne2),
{
    if let Ok(items) = a.args {
        assert forall|j: int| 0 <= j < items@.len() implies meta_within(#[trigger] items@[j], no2, ne2) by {
            assert(meta_within(items@[j], no, ne));
        }
    }
}

proof fn lemma_attrs_within_grows(attrs: Seq<AttrItem>, no: nat, ne: nat, no2: nat, ne2: nat)
    requires
        attrs_within(attrs, no, ne),
        no <= no2,
        ne <= ne2,
    ensures
        attrs_within(attrs, no2, ne2),
{
    assert forall|i: int| 0 <= i < attrs.len() implies attr_within(#[trigger] attrs[i], no2, ne2) by {
        lemma_attr_within_grows(attrs[i], no, ne, no2, ne2);
    }
}

// ---------------------------------------------------------------------------
// The value expressions are numbered in reading order.
// ---------------------------------------------------------------------------

/// The expression number of a `name = value` item; other items have none.
pub open spec fn meta_values(m: MetaItem) -> Seq<usize> {
    match m.form {
        MetaForm::NameValue { value, .. } => seq![value],
        _ => Seq::empty(),
    }
}

/// The expression numbers of the items, in order.
pub open spec fn items_values(items: Seq<MetaItem>) -> Seq<usize>
    decreases items.len(),
{
    if items.len() == 0 {
        Seq::empty()
    } else {
        items_values(items.drop_last()) + meta_values(items.last())
    }
}

/// The expression numbers of an attribute's items; an attribute whose
/// arguments did not parse has none.
pub open spec fn attr_values(a: AttrItem) -> Seq<usize> {
    match a.args {
        Ok(items) => items_values(items@),
        Err(_) => Seq::empty(),
    }
}

/// The expression numbers of the attributes, in order.
pub open spec fn attrs_values(attrs: Seq<AttrItem>) -> Seq<usize>
    decreases attrs.len(),
{
    if attrs.len() == 0 {
        Seq::empty()
    } else {
        attrs_values(attrs.drop_last()) + attr_values(attrs.last())
    }
}

/// The expression numbers of the fields' attributes, field by field.
pub open spec fn fields_values(fields: Seq<FieldInput>) -> Seq<usize>
    decreases fields.len(),
{
    if fields.len() == 0 {
        Seq::empty()
    } else {
        fields_values(fields.drop_last()) + attrs_values(fields.last().attrs@)
    }
}

/// The expression numbers of the whole input in reading order: the struct's
/// attributes first, then each field's.
pub open spec fn model_values(model: DeriveInputModel) -> Seq<usize> {
    attrs_values(model.attrs@) + match model.fields {
        Some(fs) => fields_values(fs@),
        None => Seq::empty(),
    }
}

/// `values` are the numbers from `from` up to, not including, `to`, each in
/// its turn.
pub open spec fn numbered(values: Seq<usize>, from: nat, to: nat) -> bool {
    &&& from + values.len() == to
    &&& forall|k: int| 0 <= k < values.len() ==> #[trigger] values[k] == from + k
}

/// What was kept before stays kept, in its place.
pub open spec fn kept<T>(before: Seq<T>, after: Seq<T>) -> bool {
    &&& before.len() <= after.len()
    &&& forall|k: int| 0 <= k < before.len() ==> #[trigger] after[k] == before[k]
}

proof fn lemma_numbered_concat(a: Seq<usize>, b: Seq<usize>, x: nat, y: nat, z: nat)
    requires
        numbered(a, x, y),
        numbered(b, y, z),
    ensures
        numbered(a + b, x, z),
{
    assert forall|k: int| 0 <= k < (a + b).len() implies #[trigger] (a + b)[k] == x + k by {
        if k >= a.len() {
            assert((a + b)[k] == b[k - a.len()]);
        }
    }
}

// ---------------------------------------------------------------------------
// Each field's default refers to its own expression.
// ---------------------------------------------------------------------------

proof fn lemma_item_value_kept(items: Seq<MetaItem>, j: int)
    requires
        0 <= j < items.len(),
        items[j].form is NameValue,
    ensures
        items_values(items).contains(items[j].form->value),
    decreases items.len(),
{
    let v = items[j].form->value;
    let before = items_values(items.drop_last());
    if j < items.len() - 1 {
        assert(items.drop_last()[j] == items[j]);
        lemma_item_value_kept(items.drop_last(), j);
        let k = choose|k: int| 0 <= k < before.len() && before[k] == v;
        assert(items_values(items)[k] == v);
    } else {
        assert(meta_values(items.last()) =~= seq![v]);
        assert(items_values(items)[before.len() as int] == v);
    }
}

proof fn lemma_detail_value_kept(attrs: Seq<AttrItem>, n: nat, j: int)
    requires
        n <= attrs.len(),
        0 <= j < detail_items_of(attrs, n).len(),
        detail_items_of(attrs, n)[j].form is NameValue,
    ensures
        attrs_values(attrs.take(n as int)).contains(detail_items_of(attrs, n)[j].form->value),
    decreases n,
{
    let items = detail_items_of(attrs, n);
    let v = items[j].form->value;
    let prev = detail_items_of(attrs, (n - 1) as nat);
    let a = attrs[n - 1];
    assert(attrs.take(n as int).drop_last() =~= attrs.take(n - 1));
    assert(attrs.take(n as int).last() == a);
    let before = attrs_values(attrs.take(n - 1));
    assert(attrs_values(attrs.take(n as int)) == before + attr_values(a));
    if j < prev.len() {
        assert(prev[j] == items[j]);
        lemma_detail_value_kept(attrs, (n - 1) as nat, j);
        let k = choose|k: int| 0 <= k < before.len() && before[k] == v;
        assert((before + attr_values(a))[k] == v);
    } else {
        let its = a.args->Ok_0@;
        assert(items == prev + its);
        assert(its[j - prev.len()] == items[j]);
        lemma_item_value_kept(its, j - prev.len());
        let k = choose|k: int| 0 <= k < items_values(its).len() && items_values(its)[k] == v;
        assert((before + attr_values(a))[before.len() + k] == v);
    }
}

/// The expression numbers of the first `k` fields begin those of all fields.
proof fn lemma_fields_values_prefix(fs: Seq<FieldInput>, k: int)
    requires
        0 <= k <= fs.len(),
    ensures
        kept(fields_values(fs.take(k)), fields_values(fs)),
    decreases fs.len() - k,
{
    if k < fs.len() {
        lemma_fields_values_prefix(fs, k + 1);
        let t1 = fs.take(k + 1);
        assert(t1.drop_last() =~= fs.take(k));
        let a = fields_values(fs.take(k));
        let b = attrs_values(t1.last().attrs@);
        assert(fields_values(t1) == a + b);
        assert forall|p: int| 0 <= p < a.len() implies #[trigger] fields_values(fs)[p] == a[p] by {
            assert((a + b)[p] == a[p]);
            assert(fields_values(fs)[p] == fields_values(t1)[p]);
        }
    } else {
        assert(fs.take(k) =~= fs);
    }
}

/// The default of the `i`-th field is numbered among the expressions kept
/// while that field's attributes were read.
proof fn lemma_default_number(model: DeriveInputModel, n: nat, i: int, e: usize)
    requires
        numbered(model_values(model), 0, n),
        model.fields is Some,
        0 <= i < model.fields->Some_0@.len(),
        field_scan(model.fields->Some_0@[i]).default == Some(e),
    ensures
        ({
            let fs = model.fields->Some_0@;
            let base = attrs_values(model.attrs@).len();
            &&& base + fields_values(fs.take(i)).len() <= e
            &&& e < base + fields_values(fs.take(i + 1)).len()
        }),
{
    let fs = model.fields->Some_0@;
    let f = fs[i];
    let av = attrs_values(model.attrs@);
    let w = model_values(model);
    assert(w == av + fields_values(fs));
    law_field_options(f);
    let items = detail_items_of(f.attrs@, f.attrs@.len());
    let j = choose|j: int| 0 <= j < items.len() && default_says(#[trigger] items[j], e);
    lemma_detail_value_kept(f.attrs@, f.attrs@.len(), j);
    assert(f.attrs@.take(f.attrs@.len() as int) =~= f.attrs@);
    let block = attrs_values(f.attrs@);
    let k = choose|k: int| 0 <= k < block.len() && block[k] == e;
    let t1 = fs.take(i + 1);
    assert(t1.drop_last() =~= fs.take(i));
    assert(t1.last() == f);
    let front = fields_values(fs.take(i));
    assert(fields_values(t1) == front + block);
    lemma_fields_values_prefix(fs, i + 1);
    let p = front.len() + k;
    assert((front + block)[p] == e);
    assert(fields_values(fs)[p] == e);
    assert(w[av.len() + p] == fields_values(fs)[p]);
    assert(w[av.len() + p] == av.len() + p);
}

/// Law: where the input was read in order and planned without errors, the
/// default of each field refers to an expression kept while that field's own
/// attributes were read, so the defaults of two fields are different
/// expressions, the earlier field's kept first.
pub proof fn law_field_defaults_in_field_order(
    model: DeriveInputModel,
    syntax: DeriveSyntax,
    plan: DerivePlan,
    i1: int,
    i2: int,
)
    requires
        numbered(model_values(model), 0, syntax.exprs@.len()),
        plan_outcome(model.name@, model.name_at, model.attrs@, model.fields, Ok(plan)),
        0 <= i1 < i2 < plan.fields@.len(),
        plan.fields@[i1].attrs.default is Some,
        plan.fields@[i2].attrs.default is Some,
    ensures
        plan.fields@[i1].attrs.default->Some_0 < plan.fields@[i2].attrs.default->Some_0,
{
    let fs = model.fields->Some_0@;
    let e1 = plan.fields@[i1].attrs.default->Some_0;
    let e2 = plan.fields@[i2].attrs.default->Some_0;
    assert(field_info_matches(plan.fields@[i1], fs[i1]));
    assert(field_info_matches(plan.fields@[i2], fs[i2]));
    lemma_default_number(model, syntax.exprs@.len(), i1, e1);
    lemma_default_number(model, syntax.exprs@.len(), i2, e2);
    let front = fs.take(i2);
    lemma_fields_values_prefix(front, i1 + 1);
    assert(front.take(i1 + 1) =~= fs.take(i1 + 1));
}


// ---------------------------------------------------------------------------
// Reading.
// ---------------------------------------------------------------------------

fn keep_origin(syntax: &mut DeriveSyntax, origin: Origin) -> (at: usize)
    ensures
        at == old(syntax).origins@.len(),
        final(syntax).origins@ == old(syntax).origins@.push(origin),
        final(syntax).exprs@ == old(syntax).exprs@,
{
    syntax.origins.push(origin);
    syntax.origins.len() - 1
}

fn keep_expr(syntax: &mut DeriveSyntax, expr: Expr) -> (at: usize)
    ensures
        at == old(syntax).exprs@.len(),
        final(syntax).exprs@ == old(syntax).exprs@.push(expr),
        final(syntax).origins@ == old(syntax).origins@,
{
    syntax.exprs.push(expr);
    syntax.exprs.len() - 1
}

/// Reads one item of an attribute's arguments. A `name = value` item keeps
/// its value expression as the next one and refers to it by its number; other
/// items keep none.
fn read_meta(meta: Meta, syntax: &mut DeriveSyntax) -> (m: MetaItem)
    ensures
        kept(old(syntax).origins@, final(syntax).origins@),
        kept(old(syntax).exprs@, final(syntax).exprs@),
        numbered(meta_values(m), old(syntax).exprs@.len(), final(syntax).exprs@.len()),
        meta_within(m, final(syntax).origins@.len(), final(syntax).exprs@.len()),
{
    let ident = meta_ident(&meta);
    let at = keep_origin(syntax, Origin::Tokens(meta_tokens(&meta)));
    let form = match meta_shape(meta) {
        MetaShape::Path => MetaForm::Path,
        MetaShape::List(list) => match list_string_literal(&list) {
            Ok(text) => MetaForm::List(Ok(text)),
            Err(err) => {
                let message = syn_error_text(&err);
                let note_at = keep_origin(syntax, Origin::Error(err));
                MetaForm::List(Err(ErrorNote { at: note_at, message }))
            },
        },
        MetaShape::NameValue(expr) => {
            let string_literal = expr_string_literal(&expr);
            let value = keep_expr(syntax, expr);
            MetaForm::NameValue { value, string_literal }
        },
    };
    MetaItem { ident, form, at }
}

/// Reads one attribute.
fn read_attr(attr: &Attribute, syntax: &mut DeriveSyntax) -> (a: AttrItem)
    ensures
        kept(old(syntax).origins@, final(syntax).origins@),
        kept(old(syntax).exprs@, final(syntax).exprs@),
        numbered(attr_values(a), old(syntax).exprs@.len(), final(syntax).exprs@.len()),
        attr_within(a, final(syntax).origins@.len(), final(syntax).exprs@.len()),
{
    let ident = attr_ident(attr);
    let at = keep_origin(syntax, Origin::Tokens(attr_tokens(attr)));
    let args = match attr_items(attr) {
        Err(text) => Err(text),
        Ok(mut metas) => {
            let mut items: Vec<MetaItem> = Vec::new();
            let mut rest: Vec<Meta> = Vec::new();
            // Take the items out in order.
            while metas.len() > 0
                decreases metas@.len(),
            {
                let last = metas.pop().unwrap();
                rest.push(last);
            }
            let ghost o0 = old(syntax).origins@;
            let ghost e0 = old(syntax).exprs@;
            assert(items_values(items@) =~= Seq::<usize>::empty());
            while rest.len() > 0
                invariant
                    kept(o0, syntax.origins@),
                    kept(e0, syntax.exprs@),
                    numbered(items_values(items@), e0.len(), syntax.exprs@.len()),
                    at < syntax.origins@.len(),
                    forall|j: int|
                        0 <= j < items@.len() ==> meta_within(
                            #[trigger] items@[j],
                            syntax.origins@.len(),
                            syntax.exprs@.len(),
                        ),
                decreases rest@.len(),
            {
                let meta = rest.pop().unwrap();
                let ghost before = items@;
                let ghost no = syntax.origins@.len();
                let ghost ne = syntax.exprs@.len();
                let m = read_meta(meta, syntax);
                items.push(m);
                assert(items@.drop_last() =~= before);
                proof {
                    lemma_numbered_concat(items_values(before), meta_values(m), e0.len(), ne, syntax.exprs@.len());
                }
                assert forall|j: int| 0 <= j < items@.len() implies meta_within(
                    #[trigger] items@[j],
                    syntax.origins@.len(),
                    syntax.exprs@.len(),
                ) by {
                    if j < before.len() {
                        assert(meta_within(before[j], no, ne));
                    }
                }
            }
            Ok(items)
        },
    };
    AttrItem { ident, args, at }
}

/// Reads the attributes of the struct or of a field: one item for each
/// attribute, in order.
fn read_attrs(attrs: &Vec<Attribute>, syntax: &mut DeriveSyntax) -> (r: Vec<AttrItem>)
    ensures
        r@.len() == attrs@.len(),
        kept(old(syntax).origins@, final(syntax).origins@),
        kept(old(syntax).exprs@, final(syntax).exprs@),
        numbered(attrs_values(r@), old(syntax).exprs@.len(), final(syntax).exprs@.len()),
        attrs_within(r@, final(syntax).origins@.len(), final(syntax).exprs@.len()),
{
    let mut out: Vec<AttrItem> = Vec::new();
    let mut i: usize = 0;
    assert(attrs_values(out@) =~= Seq::<usize>::empty());
    while i < attrs.len()
        invariant
            i <= attrs@.len(),
            out@.len() == i,
            kept(old(syntax).origins@, syntax.origins@),
            kept(old(syntax).exprs@, syntax.exprs@),
            numbered(attrs_values(out@), old(syntax).exprs@.len(), syntax.exprs@.len()),
            attrs_within(out@, syntax.origins@.len(), syntax.exprs@.len()),
        decreases attrs@.len() - i,
    {
        let ghost before = out@;
        let ghost no = syntax.origins@.len();
        let ghost ne = syntax.exprs@.len();
        let a = read_attr(&attrs[i], syntax);
        proof {
            lemma_attrs_within_grows(before, no, ne, syntax.origins@.len(), syntax.exprs@.len());
        }
        out.push(a);
        assert(out@.drop_last() =~= before);
        proof {
            lemma_numbered_concat(attrs_values(before), attr_values(a), old(syntax).exprs@.len(), ne, syntax.exprs@.len());
        }
        assert forall|k: int| 0 <= k < out@.len() implies attr_within(
            #[trigger] out@[k],
            syntax.origins@.len(),
            syntax.exprs@.len(),
        ) by {
            if k < before.len() {
                assert(attr_within(before[k], syntax.origins@.len(), syntax.exprs@.len()));
            }
        }
        i = i + 1;
    }
    out
}

/// Reads the derive's token input: parses it with `syn`, and gives the plain
/// values that `plan_derive` decides on, with the syntax their numbers refer
/// to, every number within it. The value expressions of the `name = value`
/// items are kept in reading order, the struct's attributes first, then each
/// field's: the k-th such item refers to the k-th expression kept, so each
/// item refers to its own expression and no two items to the same one.
pub fn read_derive_input(tokens: TokenStream) -> (r: Result<(DeriveInput, DeriveInputModel, DeriveSyntax), syn::Error>)
    ensures
        r matches Ok((_, model, syntax)) ==> {
            &&& model_within(model, syntax)
            &&& numbered(model_values(model), 0, syntax.exprs@.len())
        },
{
    let input = parse_derive_input(tokens)?;
    let mut syntax = DeriveSyntax { origins: Vec::new(), exprs: Vec::new() };
    let name = input_name(&input);
    let name_at = keep_origin(&mut syntax, Origin::Tokens(input_name_tokens(&input)));
    let struct_attrs = input_attrs(&input);
    let attrs = read_attrs(&struct_attrs, &mut syntax);
    let fields = match input_named_fields(&input) {
        None => None,
        Some(named) => {
            let mut out: Vec<FieldInput> = Vec::new();
            let mut i: usize = 0;
            assert(attrs_values(attrs@) + fields_values(out@) =~= attrs_values(attrs@));
            while i < named.len()
                invariant
                    i <= named@.len(),
                    out@.len() == i,
                    numbered(attrs_values(attrs@) + fields_values(out@), 0, syntax.exprs@.len()),
                    name_at < syntax.origins@.len(),
                    attrs_within(attrs@, syntax.origins@.len(), syntax.exprs@.len()),
                    forall|k: int|
                        0 <= k < out@.len() ==> attrs_within(
                            (#[trigger] out@[k]).attrs@,
                            syntax.origins@.len(),
                            syntax.exprs@.len(),
                        ),
                decreases named@.len() - i,
            {
                let field = &named[i];
                // Named fields always carry a name.
                let key = match field_name(field) {
                    Some(key) => key,
                    None => String::new(),
                };
                let ghost before = out@;
                let ghost no = syntax.origins@.len();
                let ghost ne = syntax.exprs@.len();
                let field_attr_list = field_attrs(field);
                let fattrs = read_attrs(&field_attr_list, &mut syntax);
                proof {
                    lemma_attrs_within_grows(attrs@, no, ne, syntax.origins@.len(), syntax.exprs@.len());
                    assert forall|k: int| 0 <= k < before.len() implies attrs_within(
                        (#[trigger] before[k]).attrs@,
                        syntax.origins@.len(),
                        syntax.exprs@.len(),
                    ) by {
                        lemma_attrs_within_grows(before[k].attrs@, no, ne, syntax.origins@.len(), syntax.exprs@.len());
                    }
                }
                let ghost fa = fattrs@;
                out.push(FieldInput { key, attrs: fattrs });
                proof {
                    assert(out@.drop_last() =~= before);
                    assert(fields_values(out@) == fields_values(before) + attrs_values(fa));
                    lemma_numbered_concat(attrs_values(attrs@) + fields_values(before), attrs_values(fa), 0, ne, syntax.exprs@.len());
                    assert(attrs_values(attrs@) + fields_values(before) + attrs_values(fa) =~= attrs_values(attrs@) + fields_values(out@));
                }
                assert forall|k: int| 0 <= k < out@.len() implies attrs_within(
                    (#[trigger] out@[k]).attrs@,
                    syntax.origins@.len(),
                    syntax.exprs@.len(),
                ) by {
                    if k < before.len() {
                        assert(out@[k] == before[k]);
                    }
                }
                i = i + 1;
            }
            Some(out)
        },
    };
    let model = DeriveInputModel { name, name_at, attrs, fields };
    assert(model_values(model) =~= attrs_values(model.attrs@) + match model.fields {
        Some(fs) => fields_values(fs@),
        None => Seq::empty(),
    });
    Ok((input, model, syntax))
}

/// The `Config` derive's decisions on its token input: reads the input with
/// `read_derive_input`, then plans it with `plan_derive`.
pub fn plan_derive_from_tokens(tokens: TokenStream) -> (r: Result<DeriveReading, syn::Error>)
    ensures
        r matches Ok(reading) ==> {
            &&& model_within(reading.model, reading.syntax)
            &&& numbered(model_values(reading.model), 0, reading.syntax.exprs@.len())
            &&& plan_outcome(
                reading.model.name@,
                reading.model.name_at,
                reading.model.attrs@,
                reading.model.fields,
                reading.plan,
            )
        },
{
    let (input, model, syntax) = read_derive_input(tokens)?;
    let plan = plan_derive(model.name.as_str(), model.name_at, &model.attrs, &model.fields);
    Ok(DeriveReading { input, model, syntax, plan })
}

} // verus!
