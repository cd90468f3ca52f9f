//! Generation of new configuration files: a TOML document is parsed, the
//! inline comments are attached to its keys, and the document is rendered.
use vstd::prelude::*;

use crate::error_handling::ConfigError;
use crate::private::Comment;
use toml_edit::{ArrayOfTables, DocumentMut, Item, Table, Value};

verus! {

// ---------------------------------------------------------------------------
// The outside types that the comment logic works on.
// ---------------------------------------------------------------------------

#[verifier::external_type_specification]
#[verifier::external_body]
pub struct ExDocumentMut(DocumentMut);

#[verifier::external_type_specification]
#[verifier::external_body]
pub struct ExItem(Item);

#[verifier::external_type_specification]
#[verifier::external_body]
pub struct ExTable(Table);

#[verifier::external_type_specification]
#[verifier::external_body]
pub struct ExValue(Value);

#[verifier::external_type_specification]
#[verifier::external_body]
pub struct ExArrayOfTables(ArrayOfTables);

// ---------------------------------------------------------------------------
// The model of a TOML document, as far as comments are concerned.
// ---------------------------------------------------------------------------

/// A TOML table: the suffix of its header, the keys of its entries in the
/// order the table holds them, and its entries by key. Only keys whose item
/// is not `Item::None` are entries.
pub struct TableNode {
    pub suffix: Option<Seq<char>>,
    pub order: Seq<Seq<char>>,
    pub entries: Map<Seq<char>, TomlNode>,
}

/// A TOML item.
pub enum TomlNode {
    /// A value (inline tables and arrays included): `repr` is what the value's
    /// `Display` writes when its decoration suffix is left out, that is its
    /// decoration prefix and its text; `suffix` is its decoration suffix.
    Value { repr: Seq<char>, suffix: Option<Seq<char>> },
    /// A table.
    Table(TableNode),
    /// An array of tables, with the models of its items in order.
    ArrayOfTables { tables: Seq<TomlNode> },
}

/// A TOML document: its root table, `None` where the root item is not a
/// table, and the text the document renders to.
pub struct DocumentModel {
    pub root: Option<TableNode>,
    pub text: Seq<char>,
}

/// The model of a `toml_edit::Item`.
pub uninterp spec fn item_node(item: Item) -> TomlNode;

/// The model of a `toml_edit::Table`.
pub uninterp spec fn table_node(table: Table) -> TableNode;

/// The suffix of the decoration of a `toml_edit::Value`.
pub uninterp spec fn value_suffix(value: Value) -> Option<Seq<char>>;

/// What the `Display` of a `toml_edit::Value` writes when the value's
/// decoration suffix is left out.
pub uninterp spec fn value_repr(value: Value) -> Seq<char>;

/// The models of the items of a `toml_edit::ArrayOfTables`, in order.
pub uninterp spec fn array_node(array: ArrayOfTables) -> Seq<TomlNode>;

/// The model of a `toml_edit::DocumentMut`.
pub uninterp spec fn document_model(doc: DocumentMut) -> DocumentModel;

/// The model of the document that `toml_edit` parses from a text, `None`
/// where the text is not valid TOML.
pub uninterp spec fn parsed_document(text: Seq<char>) -> Option<DocumentModel>;

/// What the `Display` of the `TomlError` that parsing a text gives writes.
pub uninterp spec fn parse_error_text(text: Seq<char>) -> Seq<char>;

// ---------------------------------------------------------------------------
// Trusted wrappers around toml_edit.
// ---------------------------------------------------------------------------

/// Calls `<DocumentMut as FromStr>::from_str` (through `str::parse`), and on
/// an error `<TomlError as Display>::fmt` (through `to_string`).
/// Claims: the call succeeds exactly on the texts that `parsed_document` maps
/// to a document, which is then the parsed document, whose root is a table;
/// otherwise it gives the error's text, which `parse_error_text` names.
#[verifier::external_body]
fn parse_document(text: &str) -> (r: Result<DocumentMut, String>)
    ensures
        match r {
            Ok(doc) => parsed_document(text@) == Some(document_model(doc)) && document_model(doc).root is Some,
            Err(detail) => parsed_document(text@) is None && detail@ == parse_error_text(text@),
        },
{
    match text.parse::<DocumentMut>() {
        Ok(doc) => Ok(doc),
        Err(err) => Err(err.to_string()),
    }
}

/// Calls `<DocumentMut as Display>::fmt` through `to_string`, which panics
/// where the root item is not a table; `requires` leaves that out.
/// Claims: the result is the document's text in its model.
#[verifier::external_body]
fn render_document(doc: &DocumentMut) -> (text: String)
    requires
        document_model(*doc).root is Some,
    ensures
        text@ == document_model(*doc).text,
{
    doc.to_string()
}

/// Calls `DocumentMut::as_table_mut`, which panics where the root item is not
/// a table; `requires` leaves that out.
/// Claims: the returned table is the root; what is done to it is done to the
/// document's root, and a root given back unchanged leaves the document as it
/// was.
#[verifier::external_body]
fn document_root_mut(doc: &mut DocumentMut) -> (t: &mut Table)
    requires
        document_model(*old(doc)).root is Some,
    ensures
        document_model(*old(doc)).root == Some(table_node(*t)),
        document_model(*final(doc)).root == Some(table_node(*final(t))),
        *final(t) == *t ==> *final(doc) == *old(doc),
{
    doc.as_table_mut()
}

/// Calls `Table::get_mut`.
/// Claims: an item comes back exactly for the entries of the table; it is the
/// entry under `key`; what is done to it is done to that entry alone, and an
/// entry given back unchanged leaves the table as it was.
#[verifier::external_body]
fn table_get_mut<'a>(t: &'a mut Table, key: &str) -> (r: Option<&'a mut Item>)
    ensures
        r is Some <==> table_node(*old(t)).entries.contains_key(key@),
        r matches Some(item) ==> {
            &&& item_node(*item) == table_node(*old(t)).entries[key@]
            &&& table_node(*final(t)) == (TableNode {
                entries: table_node(*old(t)).entries.insert(key@, item_node(*final(item))),
                ..table_node(*old(t))
            })
            &&& *final(item) == *item ==> *final(t) == *old(t)
        },
        r is None ==> *final(t) == *old(t),
{
    t.get_mut(key)
}

/// Calls `Item::as_table_mut`.
/// Claims: a table comes back exactly for table items; it is the item's table,
/// what is done to it is done to the item, and a table given back unchanged
/// leaves the item as it was.
#[verifier::external_body]
fn item_as_table_mut(item: &mut Item) -> (r: Option<&mut Table>)
    ensures
        r is Some <==> item_node(*old(item)) is Table,
        r matches Some(t) ==> {
            &&& item_node(*old(item)) == TomlNode::Table(table_node(*t))
            &&& item_node(*final(item)) == TomlNode::Table(table_node(*final(t)))
            &&& *final(t) == *t ==> *final(item) == *old(item)
        },
        r is None ==> *final(item) == *old(item),
{
    item.as_table_mut()
}

/// Calls `Item::as_value_mut`.
/// Claims: a value comes back exactly for value items; it is the item's value,
/// and what is done to it is done to the item.
#[verifier::external_body]
fn item_as_value_mut(item: &mut Item) -> (r: Option<&mut Value>)
    ensures
        r is Some <==> item_node(*old(item)) is Value,
        r matches Some(v) ==> {
            &&& item_node(*old(item)) == TomlNode::Value { repr: value_repr(*v), suffix: value_suffix(*v) }
            &&& item_node(*final(item)) == TomlNode::Value {
                repr: value_repr(*final(v)),
                suffix: value_suffix(*final(v)),
            }
        },
        r is None ==> *final(item) == *old(item),
{
    item.as_value_mut()
}

/// Calls `Item::as_array_of_tables_mut`.
/// Claims: an array comes back exactly for arrays of tables; it is the item's
/// array, and what is done to it is done to the item.
#[verifier::external_body]
fn item_as_array_of_tables_mut(item: &mut Item) -> (r: Option<&mut ArrayOfTables>)
    ensures
        r is Some <==> item_node(*old(item)) is ArrayOfTables,
        r matches Some(a) ==> {
            &&& item_node(*old(item)) == TomlNode::ArrayOfTables { tables: array_node(*a) }
            &&& item_node(*final(item)) == TomlNode::ArrayOfTables { tables: array_node(*final(a)) }
        },
        r is None ==> *final(item) == *old(item),
{
    item.as_array_of_tables_mut()
}

/// Calls `ArrayOfTables::get_mut`.
/// Claims: a table comes back exactly where the item at `index` is a table;
/// it is that item's table, and what is done to it is done to that item alone.
#[verifier::external_body]
fn array_get_mut(a: &mut ArrayOfTables, index: usize) -> (r: Option<&mut Table>)
    ensures
        r is Some <==> (index < array_node(*old(a)).len() && array_node(*old(a))[index as int] is Table),
        r matches Some(t) ==> {
            &&& array_node(*old(a))[index as int] == TomlNode::Table(table_node(*t))
            &&& array_node(*final(a)) == array_node(*old(a)).update(
                index as int,
                TomlNode::Table(table_node(*final(t))),
            )
        },
        r is None ==> *final(a) == *old(a),
{
    a.get_mut(index)
}

/// Calls `Decor::set_suffix` on `Value::decor_mut`.
/// Claims: the value's suffix becomes `suffix`; the rest of what the value
/// displays stays.
#[verifier::external_body]
fn value_set_suffix(v: &mut Value, suffix: String)
    ensures
        value_suffix(*final(v)) == Some(suffix@),
        value_repr(*final(v)) == value_repr(*old(v)),
{
    v.decor_mut().set_suffix(suffix)
}

/// Calls `Decor::set_suffix` on `Table::decor_mut`.
/// Claims: the table's header suffix becomes `suffix`; its keys, their order
/// and its entries stay.
#[verifier::external_body]
fn table_set_suffix(t: &mut Table, suffix: String)
    ensures
        table_node(*final(t)) == (TableNode { suffix: Some(suffix@), ..table_node(*old(t)) }),
{
    t.decor_mut().set_suffix(suffix)
}

// ---------------------------------------------------------------------------
// What applying comments does, stated over the model.
// ---------------------------------------------------------------------------

/// The suffix that an inline comment with the given text is written as.
pub open spec fn comment_suffix(text: Seq<char>) -> Seq<char> {
    " # "@ + text
}

pub open spec fn missing_key_message(key: Seq<char>) -> Seq<char> {
    "unable to find the config key '"@ + key + "'"@
}

pub open spec fn missing_nested_key_message(key: Seq<char>) -> Seq<char> {
    "unable to find the nested config key '"@ + key + "'"@
}

pub open spec fn not_a_table_message(key: Seq<char>) -> Seq<char> {
    "config key '"@ + key + "' was expected to be a table"@
}

pub open spec fn invalid_toml_message(detail: Seq<char>) -> Seq<char> {
    "failed to create a valid toml table from the given input: "@ + detail
}

/// An item with the given comment text as its suffix: values and tables take
/// it, an array of tables takes it on the header of its first table; an empty
/// array has no header to take it.
pub open spec fn decorated(node: TomlNode, text: Seq<char>) -> TomlNode {
    match node {
        TomlNode::Value { repr, .. } => TomlNode::Value { repr, suffix: Some(comment_suffix(text)) },
        TomlNode::Table(t) => TomlNode::Table(TableNode { suffix: Some(comment_suffix(text)), ..t }),
        TomlNode::ArrayOfTables { tables } => if tables.len() > 0 && tables[0] is Table {
            TomlNode::ArrayOfTables {
                tables: tables.update(
                    0,
                    TomlNode::Table(TableNode { suffix: Some(comment_suffix(text)), ..tables[0]->Table_0 }),
                ),
            }
        } else {
            TomlNode::ArrayOfTables { tables }
        },
    }
}

/// The item after `comment` is applied to it, and the error message where one
/// arises. On an error the item is as far as the application went.
pub open spec fn item_outcome(node: TomlNode, comment: Comment) -> (TomlNode, Option<Seq<char>>)
    decreases comment, 1nat, 0nat,
{
    let commented = match comment.text {
        Some(text) => decorated(node, text@),
        None => node,
    };
    if comment.children@.len() == 0 {
        (commented, None)
    } else {
        match commented {
            TomlNode::Table(t) => {
                let (t2, err) = children_outcome(t, comment, comment.children@.len());
                (TomlNode::Table(t2), err)
            },
            _ => (commented, Some(not_a_table_message(comment.key@))),
        }
    }
}

/// The table after the first `n` children of `parent` are applied to its
/// entries, in order, stopping at the first error.
pub open spec fn children_outcome(t: TableNode, parent: Comment, n: nat) -> (TableNode, Option<Seq<char>>)
    decreases parent, 0nat, n,
{
    if n == 0 || n > parent.children@.len() {
        (t, None)
    } else {
        let (t1, err1) = children_outcome(t, parent, (n - 1) as nat);
        if err1 is Some {
            (t1, err1)
        } else {
            let child = parent.children@[n - 1];
            if t1.entries.contains_key(child.key@) {
                proof {
                    assert(decreases_to!(parent => parent.children));
                    assert(decreases_to!(parent.children => parent.children@));
                    assert(decreases_to!(parent.children@ => parent.children@[n - 1]));
                }
                let (c2, err2) = item_outcome(t1.entries[child.key@], child);
                (TableNode { entries: t1.entries.insert(child.key@, c2), ..t1 }, err2)
            } else {
                (t1, Some(missing_nested_key_message(child.key@)))
            }
        }
    }
}

/// The root table after the first `n` comments are applied, in order,
/// stopping at the first error.
pub open spec fn comments_outcome(root: TableNode, comments: Seq<Comment>, n: nat) -> (TableNode, Option<Seq<char>>)
    decreases n,
{
    if n == 0 || n > comments.len() {
        (root, None)
    } else {
        let (r1, err1) = comments_outcome(root, comments, (n - 1) as nat);
        if err1 is Some {
            (r1, err1)
        } else {
            let c = comments[n - 1];
            if r1.entries.contains_key(c.key@) {
                let (c2, err2) = item_outcome(r1.entries[c.key@], c);
                (TableNode { entries: r1.entries.insert(c.key@, c2), ..r1 }, err2)
            } else {
                (r1, Some(missing_key_message(c.key@)))
            }
        }
    }
}

/// The root table after all `comments` are applied.
pub open spec fn apply_all(root: TableNode, comments: Seq<Comment>) -> (TableNode, Option<Seq<char>>) {
    comments_outcome(root, comments, comments.len())
}


// ---------------------------------------------------------------------------
// Laws of comment application.
// ---------------------------------------------------------------------------

/// The outcome of the first `n` comments depends on those comments alone.
proof fn lemma_comments_prefix(root: TableNode, a: Seq<Comment>, b: Seq<Comment>, n: nat)
    requires
        n <= a.len(),
    ensures
        comments_outcome(root, a + b, n) == comments_outcome(root, a, n),
    decreases n,
{
    if n > 0 {
        lemma_comments_prefix(root, a, b, (n - 1) as nat);
        assert((a + b)[n - 1] == a[n - 1]);
    }
}

/// Applying `a + b` applies `b`, from the first `k` of its comments on, to
/// what `a` gave.
proof fn lemma_comments_concat(root: TableNode, a: Seq<Comment>, b: Seq<Comment>, k: nat)
    requires
        k <= b.len(),
    ensures
        comments_outcome(root, a + b, a.len() + k) == ({
            let (r, err) = apply_all(root, a);
            if err is Some {
                (r, err)
            } else {
                comments_outcome(r, b, k)
            }
        }),
    decreases k,
{
    if k == 0 {
        lemma_comments_prefix(root, a, b, a.len());
    } else {
        lemma_comments_concat(root, a, b, (k - 1) as nat);
        assert((a + b)[a.len() + k - 1] == b[k - 1]);
    }
}

/// Law: applying comments in two calls does what one call with both lists,
/// one after the other, does; an error in the first call ends the work there.
pub proof fn law_comments_compose(root: TableNode, first: Seq<Comment>, second: Seq<Comment>)
    ensures
        apply_all(root, first + second) == ({
            let (r, err) = apply_all(root, first);
            if err is Some {
                (r, err)
            } else {
                apply_all(r, second)
            }
        }),
{
    lemma_comments_concat(root, first, second, second.len());
    assert((first + second).len() == first.len() + second.len());
}

/// Two items are alike but for decoration suffixes: values with the same text,
/// tables whose keys, key order and entries are alike, equal arrays of tables.
pub open spec fn same_but_suffixes(a: TomlNode, b: TomlNode) -> bool
    decreases a,
{
    match a {
        TomlNode::Value { repr, .. } => (b matches TomlNode::Value { repr: r2, .. } && repr == r2),
        TomlNode::Table(ta) => (b matches TomlNode::Table(tb) && tables_same_but_suffixes(ta, tb)),
        TomlNode::ArrayOfTables { tables } => (b matches TomlNode::ArrayOfTables { tables: t2 } && tables.len()
            == t2.len() && forall|i: int|
            #![trigger tables[i]]
            0 <= i < tables.len() ==> same_but_suffixes(tables[i], t2[i])),
    }
}

/// Two tables are alike but for decoration suffixes, their own and those of
/// everything in them.
pub open spec fn tables_same_but_suffixes(a: TableNode, b: TableNode) -> bool
    decreases a,
{
    &&& a.order == b.order
    &&& a.entries.dom() == b.entries.dom()
    &&& forall|k: Seq<char>|
        #![trigger a.entries[k]]
        a.entries.contains_key(k) ==> same_but_suffixes(a.entries[k], b.entries[k])
}

proof fn lemma_same_refl(a: TomlNode)
    ensures
        same_but_suffixes(a, a),
    decreases a,
{
    match a {
        TomlNode::Table(t) => lemma_tables_same_refl(t),
        TomlNode::ArrayOfTables { tables } => {
            assert forall|i: int| #![trigger tables[i]] 0 <= i < tables.len() implies same_but_suffixes(
                tables[i],
                tables[i],
            ) by {
                lemma_same_refl(tables[i]);
            }
        },
        _ => {},
    }
}

proof fn lemma_tables_same_refl(t: TableNode)
    ensures
        tables_same_but_suffixes(t, t),
    decreases t,
{
    assert forall|k: Seq<char>| #![trigger t.entries[k]] t.entries.contains_key(k) implies same_but_suffixes(
        t.entries[k],
        t.entries[k],
    ) by {
        lemma_same_refl(t.entries[k]);
    }
}

proof fn lemma_same_trans(a: TomlNode, b: TomlNode, c: TomlNode)
    requires
        same_but_suffixes(a, b),
        same_but_suffixes(b, c),
    ensures
        same_but_suffixes(a, c),
    decreases a,
{
    match a {
        TomlNode::Table(ta) => lemma_tables_same_trans(ta, b->Table_0, c->Table_0),
        TomlNode::ArrayOfTables { tables } => {
            let tb = b->tables;
            let tc = c->tables;
            assert forall|i: int| #![trigger tables[i]] 0 <= i < tables.len() implies same_but_suffixes(
                tables[i],
                tc[i],
            ) by {
                assert(same_but_suffixes(tb[i], tc[i]));
                lemma_same_trans(tables[i], tb[i], tc[i]);
            }
        },
        _ => {},
    }
}

proof fn lemma_tables_same_trans(a: TableNode, b: TableNode, c: TableNode)
    requires
        tables_same_but_suffixes(a, b),
        tables_same_but_suffixes(b, c),
    ensures
        tables_same_but_suffixes(a, c),
    decreases a,
{
    assert forall|k: Seq<char>| #![trigger a.entries[k]] a.entries.contains_key(k) implies same_but_suffixes(
        a.entries[k],
        c.entries[k],
    ) by {
        assert(b.entries.contains_key(k));
        lemma_same_trans(a.entries[k], b.entries[k], c.entries[k]);
    }
}

/// Replacing one entry of a table by an item alike but for suffixes gives a
/// table alike but for suffixes.
proof fn lemma_replace_entry_same(t: TableNode, key: Seq<char>, x: TomlNode)
    requires
        t.entries.contains_key(key),
        same_but_suffixes(x, t.entries[key]),
    ensures
        tables_same_but_suffixes(TableNode { entries: t.entries.insert(key, x), ..t }, t),
{
    let t2 = TableNode { entries: t.entries.insert(key, x), ..t };
    assert(t2.entries.dom() =~= t.entries.dom());
    assert forall|k: Seq<char>| #![trigger t2.entries[k]] t2.entries.contains_key(k) implies same_but_suffixes(
        t2.entries[k],
        t.entries[k],
    ) by {
        if k != key {
            lemma_same_refl(t.entries[k]);
        }
    }
}

proof fn lemma_item_outcome_same(node: TomlNode, comment: Comment)
    ensures
        same_but_suffixes(item_outcome(node, comment).0, node),
    decreases comment, 1nat, 0nat,
{
    let commented = match comment.text {
        Some(text) => decorated(node, text@),
        None => node,
    };
    lemma_same_refl(node);
    if let TomlNode::Table(t) = node {
        lemma_tables_same_refl(t);
        if let Some(text) = comment.text {
            let tn = TableNode { suffix: Some(comment_suffix(text@)), ..t };
            assert(tables_same_but_suffixes(tn, t));
            assert(commented == TomlNode::Table(tn));
        }
    }
    if let TomlNode::ArrayOfTables { tables } = node {
        if let Some(text) = comment.text {
            if tables.len() > 0 && tables[0] is Table {
                let t2 = commented->tables;
                lemma_tables_same_refl(tables[0]->Table_0);
                assert forall|i: int| #![trigger t2[i]] 0 <= i < t2.len() implies same_but_suffixes(
                    t2[i],
                    tables[i],
                ) by {
                    if i != 0 {
                        lemma_same_refl(tables[i]);
                    } else {
                        let t0 = tables[0]->Table_0;
                        let t0n = TableNode { suffix: Some(comment_suffix(text@)), ..t0 };
                        assert(t2[0] == TomlNode::Table(t0n));
                        assert(tables_same_but_suffixes(t0n, t0));
                    }
                }
                assert(commented == TomlNode::ArrayOfTables { tables: t2 });
                assert(t2.len() == tables.len());
                assert(same_but_suffixes(commented, node));
            }
        }
    }
    assert(same_but_suffixes(commented, node));
    if comment.children@.len() != 0 {
        if let TomlNode::Table(t) = commented {
            lemma_children_same(t, comment, comment.children@.len());
            lemma_tables_same_trans(children_outcome(t, comment, comment.children@.len()).0, t, node->Table_0);
        }
    }
}

proof fn lemma_children_same(t: TableNode, parent: Comment, n: nat)
    ensures
        tables_same_but_suffixes(children_outcome(t, parent, n).0, t),
    decreases parent, 0nat, n,
{
    if n == 0 || n > parent.children@.len() {
        lemma_tables_same_refl(t);
    } else {
        lemma_children_same(t, parent, (n - 1) as nat);
        let (t1, err1) = children_outcome(t, parent, (n - 1) as nat);
        if err1 is None {
            let child = parent.children@[n - 1];
            if t1.entries.contains_key(child.key@) {
                assert(decreases_to!(parent => parent.children));
                assert(decreases_to!(parent.children => parent.children@));
                assert(decreases_to!(parent.children@ => parent.children@[n - 1]));
                lemma_item_outcome_same(t1.entries[child.key@], child);
                lemma_replace_entry_same(t1, child.key@, item_outcome(t1.entries[child.key@], child).0);
                lemma_tables_same_trans(children_outcome(t, parent, n).0, t1, t);
            }
        }
    }
}

proof fn lemma_comments_same(root: TableNode, comments: Seq<Comment>, n: nat)
    ensures
        tables_same_but_suffixes(comments_outcome(root, comments, n).0, root),
    decreases n,
{
    if n == 0 || n > comments.len() {
        lemma_tables_same_refl(root);
    } else {
        lemma_comments_same(root, comments, (n - 1) as nat);
        let (r1, err1) = comments_outcome(root, comments, (n - 1) as nat);
        if err1 is None {
            let c = comments[n - 1];
            if r1.entries.contains_key(c.key@) {
                lemma_item_outcome_same(r1.entries[c.key@], c);
                lemma_replace_entry_same(r1, c.key@, item_outcome(r1.entries[c.key@], c).0);
                lemma_tables_same_trans(comments_outcome(root, comments, n).0, r1, root);
            }
        }
    }
}

/// Law: applying comments, whether it succeeds or stops at an error, changes
/// nothing but decoration suffixes: the keys of every table and their order,
/// the kind of every item, the text of every value and every array of tables
/// stay as they were.
pub proof fn law_comments_change_only_suffixes(root: TableNode, comments: Seq<Comment>)
    ensures
        tables_same_but_suffixes(apply_all(root, comments).0, root),
{
    lemma_comments_same(root, comments, comments.len());
}

/// Comments without text and without children, for keys that exist.
pub open spec fn bare_existing(root: TableNode, comments: Seq<Comment>) -> bool {
    forall|i: int|
        0 <= i < comments.len() ==> {
            &&& (#[trigger] comments[i]).text is None
            &&& comments[i].children@.len() == 0
            &&& root.entries.contains_key(comments[i].key@)
        }
}

proof fn lemma_bare_unchanged(root: TableNode, comments: Seq<Comment>, n: nat)
    requires
        n <= comments.len(),
        bare_existing(root, comments),
    ensures
        comments_outcome(root, comments, n) == (root, None::<Seq<char>>),
    decreases n,
{
    if n > 0 {
        lemma_bare_unchanged(root, comments, (n - 1) as nat);
        let c = comments[n - 1];
        assert(c.text is None);
        assert(root.entries.insert(c.key@, root.entries[c.key@]) =~= root.entries);
    }
}

/// Law: comments that carry no text and no children, for keys that exist,
/// leave the document as it was and give no error.
pub proof fn law_bare_comments_change_nothing(root: TableNode, comments: Seq<Comment>)
    requires
        bare_existing(root, comments),
    ensures
        apply_all(root, comments) == (root, None::<Seq<char>>),
{
    lemma_bare_unchanged(root, comments, comments.len());
}

/// Law: a comment with text, for a key whose item is a value, makes
/// ` # <text>` the suffix of that value and changes nothing else: the
/// value's text stays.
pub proof fn law_comment_text_becomes_suffix(root: TableNode, comment: Comment)
    requires
        root.entries.contains_key(comment.key@),
        root.entries[comment.key@] is Value,
        comment.text is Some,
        comment.children@.len() == 0,
    ensures
        apply_all(root, seq![comment]) == (
            TableNode {
                entries: root.entries.insert(
                    comment.key@,
                    TomlNode::Value {
                        repr: root.entries[comment.key@]->repr,
                        suffix: Some(" # "@ + comment.text->Some_0@),
                    },
                ),
                ..root
            },
            None::<Seq<char>>,
        ),
{
    let cs = seq![comment];
    assert(cs[0] == comment);
    assert(comments_outcome(root, cs, 0) == (root, None::<Seq<char>>));
    let (node, err) = item_outcome(root.entries[comment.key@], comment);
    assert(node == TomlNode::Value {
        repr: root.entries[comment.key@]->repr,
        suffix: Some(" # "@ + comment.text->Some_0@),
    });
    assert(err is None);
}


// ---------------------------------------------------------------------------
// When applying comments succeeds.
// ---------------------------------------------------------------------------

/// The comment's children, at any depth, find their keys: where it has
/// children, the item is a table and each child's key is an entry that the
/// child resolves on.
pub open spec fn resolves(node: TomlNode, comment: Comment) -> bool
    decreases comment, 1nat, 0nat,
{
    comment.children@.len() == 0 || (node is Table && children_resolve(
        node->Table_0,
        comment,
        comment.children@.len(),
    ))
}

/// The first `n` children of `parent` find their keys in `t`.
pub open spec fn children_resolve(t: TableNode, parent: Comment, n: nat) -> bool
    decreases parent, 0nat, n,
{
    if n == 0 || n > parent.children@.len() {
        true
    } else {
        let child = parent.children@[n - 1];
        proof {
            assert(decreases_to!(parent => parent.children));
            assert(decreases_to!(parent.children => parent.children@));
            assert(decreases_to!(parent.children@ => parent.children@[n - 1]));
        }
        children_resolve(t, parent, (n - 1) as nat) && t.entries.contains_key(child.key@) && resolves(
            t.entries[child.key@],
            child,
        )
    }
}

/// Every comment's key is an entry of the root that the comment resolves on.
pub open spec fn comments_resolve(root: TableNode, comments: Seq<Comment>) -> bool {
    forall|i: int|
        0 <= i < comments.len() ==> root.entries.contains_key((#[trigger] comments[i]).key@) && resolves(
            root.entries[comments[i].key@],
            comments[i],
        )
}

proof fn lemma_resolves_same(a: TomlNode, b: TomlNode, comment: Comment)
    requires
        same_but_suffixes(a, b),
    ensures
        resolves(a, comment) == resolves(b, comment),
    decreases comment, 1nat, 0nat,
{
    if comment.children@.len() != 0 && a is Table {
        lemma_children_resolve_same(a->Table_0, b->Table_0, comment, comment.children@.len());
    }
}

proof fn lemma_children_resolve_same(a: TableNode, b: TableNode, parent: Comment, n: nat)
    requires
        tables_same_but_suffixes(a, b),
    ensures
        children_resolve(a, parent, n) == children_resolve(b, parent, n),
    decreases parent, 0nat, n,
{
    if n > 0 && n <= parent.children@.len() {
        lemma_children_resolve_same(a, b, parent, (n - 1) as nat);
        let child = parent.children@[n - 1];
        if a.entries.contains_key(child.key@) {
            assert(decreases_to!(parent => parent.children));
            assert(decreases_to!(parent.children => parent.children@));
            assert(decreases_to!(parent.children@ => parent.children@[n - 1]));
            lemma_resolves_same(a.entries[child.key@], b.entries[child.key@], child);
        }
    }
}

proof fn lemma_item_succeeds(node: TomlNode, comment: Comment)
    ensures
        (item_outcome(node, comment).1 is None) == resolves(node, comment),
    decreases comment, 1nat, 0nat,
{
    let commented = match comment.text {
        Some(text) => decorated(node, text@),
        None => node,
    };
    if comment.children@.len() != 0 {
        if let TomlNode::Table(t) = node {
            let tc = commented->Table_0;
            assert(tc.entries == t.entries);
            lemma_children_succeed(tc, comment, comment.children@.len());
            lemma_tables_same_refl(t);
            assert(tables_same_but_suffixes(tc, t));
            lemma_children_resolve_same(tc, t, comment, comment.children@.len());
        }
    }
}

proof fn lemma_children_succeed(t: TableNode, parent: Comment, n: nat)
    ensures
        (children_outcome(t, parent, n).1 is None) == children_resolve(t, parent, n),
    decreases parent, 0nat, n,
{
    if n > 0 && n <= parent.children@.len() {
        lemma_children_succeed(t, parent, (n - 1) as nat);
        let (t1, err1) = children_outcome(t, parent, (n - 1) as nat);
        if err1 is None {
            let child = parent.children@[n - 1];
            lemma_children_same(t, parent, (n - 1) as nat);
            assert(t1.entries.dom() == t.entries.dom());
            if t1.entries.contains_key(child.key@) {
                assert(decreases_to!(parent => parent.children));
                assert(decreases_to!(parent.children => parent.children@));
                assert(decreases_to!(parent.children@ => parent.children@[n - 1]));
                lemma_item_succeeds(t1.entries[child.key@], child);
                assert(same_but_suffixes(t1.entries[child.key@], t.entries[child.key@]));
                lemma_resolves_same(t1.entries[child.key@], t.entries[child.key@], child);
            }
        }
    }
}

proof fn lemma_comments_succeed(root: TableNode, comments: Seq<Comment>, n: nat)
    requires
        n <= comments.len(),
    ensures
        (comments_outcome(root, comments, n).1 is None) == comments_resolve(root, comments.take(n as int)),
    decreases n,
{
    let pre = comments.take(n as int);
    if n == 0 {
        assert(comments_resolve(root, pre));
    } else {
        lemma_comments_succeed(root, comments, (n - 1) as nat);
        let before = comments.take(n - 1);
        assert forall|i: int| 0 <= i < before.len() implies before[i] == pre[i] by {}
        let c = comments[n - 1];
        assert(pre[n - 1] == c);
        let (r1, err1) = comments_outcome(root, comments, (n - 1) as nat);
        lemma_comments_same(root, comments, (n - 1) as nat);
        assert(r1.entries.dom() == root.entries.dom());
        let step_ok = root.entries.contains_key(c.key@) && resolves(root.entries[c.key@], c);
        if r1.entries.contains_key(c.key@) {
            lemma_item_succeeds(r1.entries[c.key@], c);
            assert(same_but_suffixes(r1.entries[c.key@], root.entries[c.key@]));
            lemma_resolves_same(r1.entries[c.key@], root.entries[c.key@], c);
        }
        if comments_resolve(root, pre) {
            assert forall|i: int| 0 <= i < before.len() implies root.entries.contains_key(
                (#[trigger] before[i]).key@,
            ) && resolves(root.entries[before[i].key@], before[i]) by {
                assert(root.entries.contains_key(pre[i].key@) && resolves(root.entries[pre[i].key@], pre[i]));
            }
            assert(step_ok);
        }
        if comments_resolve(root, before) && step_ok {
            assert forall|i: int| 0 <= i < pre.len() implies root.entries.contains_key((#[trigger] pre[i]).key@)
                && resolves(root.entries[pre[i].key@], pre[i]) by {
                if i < n - 1 {
                    assert(root.entries.contains_key(before[i].key@) && resolves(root.entries[before[i].key@], before[i]));
                }
            }
        }
    }
}

/// Law: applying comments succeeds exactly when every comment's key is an
/// entry of the root and, wherever a comment has children, its item is a
/// table in which every child's key is an entry, at any depth. What the
/// comments say does not matter: comments without text that find their keys
/// succeed too.
pub proof fn law_comments_succeed_when_keys_resolve(root: TableNode, comments: Seq<Comment>)
    ensures
        (apply_all(root, comments).1 is None) == comments_resolve(root, comments),
{
    lemma_comments_succeed(root, comments, comments.len());
    assert(comments.take(comments.len() as int) =~= comments);
}

/// No comment among the first `n` names the key.
pub open spec fn unnamed(comments: Seq<Comment>, key: Seq<char>) -> bool {
    forall|i: int| 0 <= i < comments.len() ==> (#[trigger] comments[i]).key@ != key
}

proof fn lemma_unnamed_kept(root: TableNode, comments: Seq<Comment>, n: nat, key: Seq<char>)
    requires
        n <= comments.len(),
        unnamed(comments, key),
        root.entries.contains_key(key),
    ensures
        comments_outcome(root, comments, n).0.entries.contains_key(key),
        comments_outcome(root, comments, n).0.entries[key] == root.entries[key],
        comments_outcome(root, comments, n).0.suffix == root.suffix,
        comments_outcome(root, comments, n).0.order == root.order,
    decreases n,
{
    if n > 0 {
        lemma_unnamed_kept(root, comments, (n - 1) as nat, key);
        assert(comments[n - 1].key@ != key);
    }
}

/// Law: what no comment names is left exactly as it was: an entry of the root
/// whose key no comment names keeps its item, suffixes included, and the root
/// keeps its own suffix and its key order.
pub proof fn law_unnamed_entries_unchanged(root: TableNode, comments: Seq<Comment>, key: Seq<char>)
    requires
        unnamed(comments, key),
        root.entries.contains_key(key),
    ensures
        apply_all(root, comments).0.entries[key] == root.entries[key],
        apply_all(root, comments).0.suffix == root.suffix,
        apply_all(root, comments).0.order == root.order,
{
    lemma_unnamed_kept(root, comments, comments.len(), key);
}

/// Once an error arises among the first `k` children, applying more children
/// changes nothing.
proof fn lemma_children_stop(t: TableNode, parent: Comment, k: nat, n: nat)
    requires
        k <= n <= parent.children@.len(),
        children_outcome(t, parent, k).1 is Some,
    ensures
        children_outcome(t, parent, n) == children_outcome(t, parent, k),
    decreases n - k,
{
    if n > k {
        lemma_children_stop(t, parent, k, (n - 1) as nat);
    }
}

/// Once an error arises among the first `k` comments, applying more comments
/// changes nothing.
proof fn lemma_comments_stop(root: TableNode, comments: Seq<Comment>, k: nat, n: nat)
    requires
        k <= n <= comments.len(),
        comments_outcome(root, comments, k).1 is Some,
    ensures
        comments_outcome(root, comments, n) == comments_outcome(root, comments, k),
    decreases n - k,
{
    if n > k {
        lemma_comments_stop(root, comments, k, (n - 1) as nat);
    }
}

// ---------------------------------------------------------------------------
// Where a comment's text lands, at any depth.
// ---------------------------------------------------------------------------

/// The item reached from `node` by following `keys` down through nested
/// tables, if each key is an entry of the table it is looked up in.
pub open spec fn node_at(node: TomlNode, keys: Seq<Seq<char>>) -> Option<TomlNode>
    decreases keys.len(),
{
    if keys.len() == 0 {
        Some(node)
    } else {
        match node {
            TomlNode::Table(t) => if t.entries.contains_key(keys[0]) {
                node_at(t.entries[keys[0]], keys.drop_first())
            } else {
                None
            },
            _ => None,
        }
    }
}

/// The suffix written after an item: a value's own, a table's header's, and
/// for an array of tables the header of its first table.
pub open spec fn node_suffix(node: TomlNode) -> Option<Seq<char>> {
    match node {
        TomlNode::Value { suffix, .. } => suffix,
        TomlNode::Table(t) => t.suffix,
        TomlNode::ArrayOfTables { tables } => if tables.len() > 0 && tables[0] is Table {
            tables[0]->Table_0.suffix
        } else {
            None
        },
    }
}

/// The item has a line for an inline comment: every item but an array of
/// tables that has no first table.
pub open spec fn has_comment_line(node: TomlNode) -> bool {
    node is ArrayOfTables ==> (node->tables.len() > 0 && node->tables[0] is Table)
}

/// No comment after the `i`-th names the same key.
pub open spec fn last_with_key(comments: Seq<Comment>, i: int) -> bool {
    forall|j: int| i < j < comments.len() ==> (#[trigger] comments[j]).key@ != comments[i].key@
}

/// `path` picks, at each step down from `c`, one of the children, each the
/// last of its siblings with its key.
pub open spec fn child_path(c: Comment, path: Seq<int>) -> bool
    decreases path.len(),
{
    path.len() == 0 || ({
        let j = path[0];
        &&& 0 <= j < c.children@.len()
        &&& last_with_key(c.children@, j)
        &&& child_path(c.children@[j], path.drop_first())
    })
}

/// The comment that `path` reaches from `c`.
pub open spec fn descendant(c: Comment, path: Seq<int>) -> Comment
    decreases path.len(),
{
    if path.len() == 0 {
        c
    } else {
        descendant(c.children@[path[0]], path.drop_first())
    }
}

/// The keys of the comments that `path` passes through below `c`, in order.
pub open spec fn descendant_keys(c: Comment, path: Seq<int>) -> Seq<Seq<char>>
    decreases path.len(),
{
    if path.len() == 0 {
        Seq::empty()
    } else {
        seq![c.children@[path[0]].key@] + descendant_keys(c.children@[path[0]], path.drop_first())
    }
}

proof fn lemma_children_keep_suffix(t: TableNode, parent: Comment, n: nat)
    ensures
        children_outcome(t, parent, n).0.suffix == t.suffix,
    decreases n,
{
    if n > 0 && n <= parent.children@.len() {
        lemma_children_keep_suffix(t, parent, (n - 1) as nat);
    }
}

/// Where the first `n` children apply without error, the entry of the `j`-th
/// child's key is what that child made of it, when no later child among
/// them names the key again.
proof fn lemma_child_lands(t: TableNode, parent: Comment, j: int, n: nat)
    requires
        0 <= j < n <= parent.children@.len(),
        last_with_key(parent.children@, j),
        children_outcome(t, parent, n).1 is None,
    ensures
        ({
            let child = parent.children@[j];
            let before = children_outcome(t, parent, j as nat).0;
            &&& before.entries.contains_key(child.key@)
            &&& item_outcome(before.entries[child.key@], child).1 is None
            &&& children_outcome(t, parent, n).0.entries.contains_key(child.key@)
            &&& children_outcome(t, parent, n).0.entries[child.key@] == item_outcome(
                before.entries[child.key@],
                child,
            ).0
        }),
    decreases n,
{
    if n > j + 1 {
        lemma_child_lands(t, parent, j, (n - 1) as nat);
        assert(parent.children@[n - 1].key@ != parent.children@[j].key@);
    }
}

/// The same for the comments applied to the root.
proof fn lemma_comment_lands(root: TableNode, comments: Seq<Comment>, i: int, n: nat)
    requires
        0 <= i < n <= comments.len(),
        last_with_key(comments, i),
        comments_outcome(root, comments, n).1 is None,
    ensures
        ({
            let c = comments[i];
            let before = comments_outcome(root, comments, i as nat).0;
            &&& before.entries.contains_key(c.key@)
            &&& item_outcome(before.entries[c.key@], c).1 is None
            &&& comments_outcome(root, comments, n).0.entries.contains_key(c.key@)
            &&& comments_outcome(root, comments, n).0.entries[c.key@] == item_outcome(
                before.entries[c.key@],
                c,
            ).0
        }),
    decreases n,
{
    if n > i + 1 {
        lemma_comment_lands(root, comments, i, (n - 1) as nat);
        assert(comments[n - 1].key@ != comments[i].key@);
    }
}

/// Applied without error to any item, a comment puts the text of the
/// comment that `path` reaches on the item at the matching keys.
proof fn lemma_text_lands(node: TomlNode, c: Comment, path: Seq<int>)
    requires
        child_path(c, path),
        descendant(c, path).text is Some,
        item_outcome(node, c).1 is None,
    ensures
        ({
            let target = node_at(item_outcome(node, c).0, descendant_keys(c, path));
            &&& target is Some
            &&& has_comment_line(target->Some_0) ==> node_suffix(target->Some_0) == Some(
                comment_suffix(descendant(c, path).text->Some_0@),
            )
        }),
    decreases path.len(),
{
    let commented = match c.text {
        Some(text) => decorated(node, text@),
        None => node,
    };
    if path.len() == 0 {
        assert(descendant_keys(c, path) =~= Seq::<Seq<char>>::empty());
        if c.children@.len() > 0 {
            lemma_children_keep_suffix(commented->Table_0, c, c.children@.len());
        }
    } else {
        let j = path[0];
        let child = c.children@[j];
        let rest = path.drop_first();
        let t = commented->Table_0;
        lemma_child_lands(t, c, j, c.children@.len());
        let before = children_outcome(t, c, j as nat).0;
        lemma_text_lands(before.entries[child.key@], child, rest);
        let keys = descendant_keys(c, path);
        assert(keys =~= seq![child.key@] + descendant_keys(child, rest));
        assert(keys[0] == child.key@);
        assert(keys.drop_first() =~= descendant_keys(child, rest));
    }
}

/// Law: a comment's text lands as the inline comment ` # <text>` on the item
/// its keys lead to, at any depth: on a value, on a table's header, on the
/// first header of an array of tables. The comment is picked by its place
/// among the comments and a path of child positions below it; at each level
/// it is the last of its siblings with its key, as field names of a struct
/// are. This holds of every application that succeeds.
pub proof fn law_comment_text_lands_at_every_depth(
    root: TableNode,
    comments: Seq<Comment>,
    i: int,
    path: Seq<int>,
)
    requires
        0 <= i < comments.len(),
        last_with_key(comments, i),
        child_path(comments[i], path),
        descendant(comments[i], path).text is Some,
        apply_all(root, comments).1 is None,
    ensures
        ({
            let target = node_at(
                TomlNode::Table(apply_all(root, comments).0),
                seq![comments[i].key@] + descendant_keys(comments[i], path),
            );
            &&& target is Some
            &&& has_comment_line(target->Some_0) ==> node_suffix(target->Some_0) == Some(
                " # "@ + descendant(comments[i], path).text->Some_0@,
            )
        }),
{
    let c = comments[i];
    lemma_comment_lands(root, comments, i, comments.len());
    let before = comments_outcome(root, comments, i as nat).0;
    lemma_text_lands(before.entries[c.key@], c, path);
    let keys = seq![c.key@] + descendant_keys(c, path);
    assert(keys[0] == c.key@);
    assert(keys.drop_first() =~= descendant_keys(c, path));
}

// ---------------------------------------------------------------------------
// The executable logic.
// ---------------------------------------------------------------------------

fn message_with_key(before: &str, key: &str, after: &str) -> (m: String)
    ensures
        m@ == before@ + key@ + after@,
{
    String::from_str(before).concat(key).concat(after)
}

/// The comment and its children, at any depth, carry no text.
pub open spec fn no_text(c: Comment) -> bool
    decreases c, 1nat, 0nat,
{
    c.text is None && children_no_text(c, c.children@.len())
}

/// The first `n` children of `parent`, at any depth, carry no text.
pub open spec fn children_no_text(parent: Comment, n: nat) -> bool
    decreases parent, 0nat, n,
{
    if n == 0 || n > parent.children@.len() {
        true
    } else {
        proof {
            assert(decreases_to!(parent => parent.children));
            assert(decreases_to!(parent.children => parent.children@));
            assert(decreases_to!(parent.children@ => parent.children@[n - 1]));
        }
        children_no_text(parent, (n - 1) as nat) && no_text(parent.children@[n - 1])
    }
}

/// None of the comments, at any depth, carries text.
pub open spec fn all_no_text(comments: Seq<Comment>) -> bool {
    forall|i: int| 0 <= i < comments.len() ==> #[trigger] no_text(comments[i])
}

proof fn lemma_children_no_text(parent: Comment, n: nat, i: int)
    requires
        children_no_text(parent, n),
        0 <= i < n <= parent.children@.len(),
    ensures
        no_text(parent.children@[i]),
    decreases n,
{
    if i < n - 1 {
        lemma_children_no_text(parent, (n - 1) as nat, i);
    }
}

/// Parses `file_contents` as a TOML document.
pub fn parse_config(file_contents: &str) -> (r: Result<DocumentMut, ConfigError>)
    ensures
        match parsed_document(file_contents@) {
            Some(model) => (r matches Ok(doc) && document_model(doc) == model && model.root is Some),
            None => (r is Err && r->Err_0@ == invalid_toml_message(parse_error_text(file_contents@))),
        },
{
    match parse_document(file_contents) {
        Ok(val) => Ok(val),
        Err(detail) => {
            let message = String::from_str(
                "failed to create a valid toml table from the given input: ",
            ).concat(detail.as_str());
            assert(message@ == invalid_toml_message(detail@));
            Err(ConfigError::new(message))
        },
    }
}

/// Generates the contents of a configuration file: parses `file_contents` as
/// TOML, applies `comments` to it and renders it.
pub fn generate_config_file(file_contents: String, comments: Vec<Comment>) -> (r: Result<String, ConfigError>)
    ensures
        parsed_document(file_contents@) is None ==> r is Err && r->Err_0@ == invalid_toml_message(
            parse_error_text(file_contents@),
        ),
        parsed_document(file_contents@) matches Some(parsed) ==> {
            let (commented, err) = apply_all(parsed.root->Some_0, comments@);
            &&& r is Ok <==> err is None
            &&& r matches Err(e) ==> err == Some(e@)
            &&& r matches Ok(text) ==> exists|doc: DocumentMut|
                document_model(doc).root == Some(commented) && text@ == document_model(doc).text
            &&& all_no_text(comments@) ==> (r matches Ok(text) ==> text@ == parsed.text)
        },
{
    let mut config = match parse_config(file_contents.as_str()) {
        Ok(val) => val,
        Err(e) => {
            return Err(e);
        },
    };
    match apply_comments(&mut config, comments) {
        Ok(()) => {},
        Err(e) => {
            return Err(e);
        },
    }
    Ok(render_document(&config))
}

/// Applies `comments` in order to the keys of the document's root table,
/// stopping at the first key that cannot take its comment. Comments without
/// text, at any depth, leave the document exactly as it was.
pub fn apply_comments(config: &mut DocumentMut, comments: Vec<Comment>) -> (r: Result<(), ConfigError>)
    requires
        document_model(*old(config)).root is Some,
    ensures
        ({
            let (root, err) = apply_all(document_model(*old(config)).root->Some_0, comments@);
            &&& document_model(*final(config)).root == Some(root)
            &&& r is Ok <==> err is None
            &&& r matches Err(e) ==> err == Some(e@)
        }),
        all_no_text(comments@) ==> *final(config) == *old(config),
{
    let ghost root0 = document_model(*config).root->Some_0;
    let table = document_root_mut(config);
    let ghost t_start = *table;
    let mut i: usize = 0;
    #[verifier::loop_isolation(false)]
    while i < comments.len()
        invariant
            i <= comments@.len(),
            comments_outcome(root0, comments@, i as nat) == (table_node(*table), None::<Seq<char>>),
            all_no_text(comments@) ==> *table == t_start,
        decreases comments@.len() - i,
    {
        let comment = &comments[i];
        match table_get_mut(table, comment.key) {
            Some(item) => {
                assert(comments@[i as int] == *comment);
                let res = apply_comments_to_item(item, comment);
                match res {
                    Ok(()) => {},
                    Err(e) => {
                        proof {
                            lemma_comments_stop(root0, comments@, (i + 1) as nat, comments@.len());
                        }
                        return Err(e);
                    },
                }
            },
            None => {
                let err = ConfigError::new(message_with_key("unable to find the config key '", comment.key, "'"));
                proof {
                    assert(comments@[i as int] == *comment);
                    lemma_comments_stop(root0, comments@, (i + 1) as nat, comments@.len());
                }
                return Err(err);
            },
        }
        i = i + 1;
    }
    Ok(())
}

/// Applies one comment to an item: its text, if any, becomes the item's
/// suffix; its children are applied to the entries of the item's table.
fn apply_comments_to_item(item: &mut Item, comment: &Comment) -> (r: Result<(), ConfigError>)
    ensures
        ({
            let (node, err) = item_outcome(item_node(*old(item)), *comment);
            &&& item_node(*final(item)) == node
            &&& r is Ok <==> err is None
            &&& r matches Err(e) ==> err == Some(e@)
        }),
        no_text(*comment) ==> *final(item) == *old(item),
    decreases comment,
{
    if let Some(text) = comment.text {
        let suffix = String::from_str(" # ").concat(text);
        match item_as_value_mut(item) {
            Some(value) => value_set_suffix(value, suffix),
            None => match item_as_table_mut(item) {
                Some(table) => table_set_suffix(table, suffix),
                None => match item_as_array_of_tables_mut(item) {
                    Some(array) => match array_get_mut(array, 0) {
                        Some(first) => table_set_suffix(first, suffix),
                        None => {},
                    },
                    None => {},
                },
            },
        }
    }
    if comment.children.len() > 0 {
        let table = match item_as_table_mut(item) {
            Some(table) => table,
            None => {
                return Err(ConfigError::new(message_with_key("config key '", comment.key, "' was expected to be a table")));
            },
        };
        let ghost t0 = table_node(*table);
        let ghost t_start = *table;
        let mut i: usize = 0;
        #[verifier::loop_isolation(false)]
        while i < comment.children.len()
            invariant
                i <= comment.children@.len(),
                children_outcome(t0, *comment, i as nat) == (table_node(*table), None::<Seq<char>>),
                no_text(*comment) ==> *table == t_start,
            decreases comment.children@.len() - i,
        {
            let child = &comment.children[i];
            match table_get_mut(table, child.key) {
                Some(child_item) => {
                    assert(decreases_to!(comment.children => comment.children@));
                    assert(decreases_to!(comment.children@ => comment.children@[i as int]));
                    assert(comment.children@[i as int] == *child);
                    proof {
                        if no_text(*comment) {
                            lemma_children_no_text(*comment, comment.children@.len(), i as int);
                        }
                    }
                    let res = apply_comments_to_item(child_item, child);
                    match res {
                        Ok(()) => {},
                        Err(e) => {
                            proof {
                                lemma_children_stop(t0, *comment, (i + 1) as nat, comment.children@.len());
                            }
                            return Err(e);
                        },
                    }
                },
                None => {
                    let err = ConfigError::new(message_with_key("unable to find the nested config key '", child.key, "'"));
                    proof {
                        assert(comment.children@[i as int] == *child);
                        lemma_children_stop(t0, *comment, (i + 1) as nat, comment.children@.len());
                    }
                    return Err(err);
                },
            }
            i = i + 1;
        }
    }
    Ok(())
}

} // verus!
