//! The tagged column decoder: turns one item's variable-shaped column
//! array into the fixed column union, tolerating nulls, bare scalars and
//! missing nested fields, and never failing one item because of another.
use vstd::prelude::*;

use crate::json::{json_get, spec_get, JsonValue};
use crate::proto::{ColumnView, ItemView, MemexAssignee, MemexItem, MemexProjectColumn};
use crate::strutil::str_eq;

verus! {

/// A structural defect that stops one item (or a whole document) from
/// decoding; anything smaller degrades to an empty field instead.
#[derive(Clone, Copy, Debug, PartialEq, Eq, Structural)]
pub enum DecodeError {
    /// The raw text is not well-formed JSON.
    MalformedJson,
    /// The top-level item collection is not a list.
    ItemsNotAList,
    /// An item's column array is not a list.
    ColumnsNotAList,
    /// A column entry carries no string type tag at all.
    ColumnNotTagged,
    /// The top-level column-type collection is not a list.
    ColumnTypesNotAList,
}

/// Title decoded from a column value: null gives the empty default, a
/// bare string is a redacted item shown as its text with number zero,
/// and an object is read at `title.raw` and `number`, each falling back
/// to the empty default when absent.
pub open spec fn spec_decode_title(v: JsonValue) -> (Seq<char>, u64) {
    match v {
        JsonValue::Null => (Seq::empty(), 0),
        JsonValue::Str(s) => (s@, 0),
        _ => (spec_title_raw(v), spec_title_number(v)),
    }
}

pub open spec fn spec_title_number(v: JsonValue) -> u64 {
    match spec_get(v, "number"@) {
        Some(JsonValue::Num(Some(n))) => n,
        _ => 0,
    }
}

pub open spec fn spec_title_raw(v: JsonValue) -> Seq<char> {
    match spec_get(v, "title"@) {
        Some(t) => match spec_get(t, "raw"@) {
            Some(JsonValue::Str(r)) => r@,
            _ => Seq::empty(),
        },
        None => Seq::empty(),
    }
}

/// Status id decoded from a column value: null gives the empty id, and
/// anything else is read at `id`, falling back to empty.
pub open spec fn spec_decode_status(v: JsonValue) -> Seq<char> {
    match v {
        JsonValue::Null => Seq::empty(),
        _ => match spec_get(v, "id"@) {
            Some(JsonValue::Str(s)) => s@,
            _ => Seq::empty(),
        },
    }
}

/// Repository name decoded from a column value, read at `name` with the
/// empty default when absent.
pub open spec fn spec_decode_repo(v: JsonValue) -> Seq<char> {
    match spec_get(v, "name"@) {
        Some(JsonValue::Str(s)) => s@,
        _ => Seq::empty(),
    }
}

/// Login of one assignee entry, read at `login` with the empty default.
pub open spec fn spec_assignee_login(v: JsonValue) -> Seq<char> {
    match spec_get(v, "login"@) {
        Some(JsonValue::Str(s)) => s@,
        _ => Seq::empty(),
    }
}

/// Assignee logins decoded from a column value: a list gives its entries'
/// logins in order; anything else, null included, gives the empty list.
pub open spec fn spec_decode_assignees(v: JsonValue) -> Seq<Seq<char>> {
    match v {
        JsonValue::Arr(items) => items@.map_values(|it: JsonValue| spec_assignee_login(it)),
        _ => Seq::empty(),
    }
}

/// The column value of an entry: its `value` field, or null when absent.
pub open spec fn spec_column_value(entry: JsonValue) -> JsonValue {
    match spec_get(entry, "value"@) {
        Some(v) => v,
        None => JsonValue::Null,
    }
}

/// One column entry decoded by its type tag: a known tag selects its
/// variant, an unknown string tag is skipped, and an entry without a
/// string tag cannot be classified at all.
pub open spec fn spec_decode_column(entry: JsonValue) -> Result<Option<ColumnView>, DecodeError> {
    match spec_get(entry, "memexProjectColumnId"@) {
        Some(JsonValue::Str(tag)) => {
            let value = spec_column_value(entry);
            if tag@ == "Title"@ {
                Ok(
                    Some(
                        ColumnView::TitleV {
                            title: spec_decode_title(value).0,
                            number: spec_decode_title(value).1,
                        },
                    ),
                )
            } else if tag@ == "Status"@ {
                Ok(Some(ColumnView::StatusV { id: spec_decode_status(value) }))
            } else if tag@ == "Assignees"@ {
                Ok(Some(ColumnView::AssigneesV { logins: spec_decode_assignees(value) }))
            } else if tag@ == "Repository"@ {
                Ok(Some(ColumnView::RepositoryV { name: spec_decode_repo(value) }))
            } else {
                Ok(None)
            }
        },
        _ => Err(DecodeError::ColumnNotTagged),
    }
}

/// Columns of one item decoded in order; the first unclassifiable entry
/// fails the item.
pub open spec fn spec_decode_entries(entries: Seq<JsonValue>) -> Result<
    Seq<ColumnView>,
    DecodeError,
>
    decreases entries.len(),
{
    if entries.len() == 0 {
        Ok(Seq::empty())
    } else {
        match spec_decode_entries(entries.drop_last()) {
            Err(e) => Err(e),
            Ok(rest) => match spec_decode_column(entries.last()) {
                Err(e) => Err(e),
                Ok(None) => Ok(rest),
                Ok(Some(c)) => Ok(rest.push(c)),
            },
        }
    }
}

/// Column array of one item: it must be a list; its entries then decode
/// as `spec_decode_entries` says.
pub open spec fn spec_decode_columns(v: JsonValue) -> Result<Seq<ColumnView>, DecodeError> {
    match v {
        JsonValue::Arr(entries) => spec_decode_entries(entries@),
        _ => Err(DecodeError::ColumnsNotAList),
    }
}

/// Opaque identifier of an item, read at `id` with zero as the default.
pub open spec fn spec_item_id(v: JsonValue) -> u64 {
    match spec_get(v, "id"@) {
        Some(JsonValue::Num(Some(n))) => n,
        _ => 0,
    }
}

/// One item decoded from its JSON object: the identifier plus the decoded
/// column list found at `memexProjectColumnValues`.
pub open spec fn spec_decode_item(v: JsonValue) -> Result<ItemView, DecodeError> {
    let cols_v = match spec_get(v, "memexProjectColumnValues"@) {
        Some(c) => c,
        None => JsonValue::Null,
    };
    match spec_decode_columns(cols_v) {
        Err(e) => Err(e),
        Ok(cols) => Ok(ItemView { id: spec_item_id(v), columns: cols }),
    }
}

/// Items decoded one by one: a defective item becomes an issue under its
/// index and never stops its siblings.
pub open spec fn spec_decode_items_list(entries: Seq<JsonValue>) -> (
    Seq<ItemView>,
    Seq<(int, DecodeError)>,
)
    decreases entries.len(),
{
    if entries.len() == 0 {
        (Seq::empty(), Seq::empty())
    } else {
        let prev = spec_decode_items_list(entries.drop_last());
        match spec_decode_item(entries.last()) {
            Ok(it) => (prev.0.push(it), prev.1),
            Err(e) => (prev.0, prev.1.push(((entries.len() - 1) as int, e))),
        }
    }
}

/// The item collection: it must be a list; its entries then decode as
/// `spec_decode_items_list` says.
pub open spec fn spec_decode_items(v: JsonValue) -> Result<
    (Seq<ItemView>, Seq<(int, DecodeError)>),
    DecodeError,
> {
    match v {
        JsonValue::Arr(entries) => Ok(spec_decode_items_list(entries@)),
        _ => Err(DecodeError::ItemsNotAList),
    }
}

/// Every item of the collection yields exactly one outcome — a decoded
/// item or one reported issue — so no item ever aborts the decoding of
/// its siblings.
pub proof fn lemma_decode_items_total(entries: Seq<JsonValue>)
    ensures
        spec_decode_items_list(entries).0.len() + spec_decode_items_list(entries).1.len()
            == entries.len(),
    decreases entries.len(),
{
    if entries.len() > 0 {
        lemma_decode_items_total(entries.drop_last());
    }
}

/// A per-item decode defect: the index of the item in document order and
/// what was wrong with it.
#[derive(Debug)]
pub struct ItemIssue {
    pub index: usize,
    pub error: DecodeError,
}

/// Mathematical form of an issue list.
pub open spec fn issues_view(issues: Seq<ItemIssue>) -> Seq<(int, DecodeError)> {
    issues.map_values(|s: ItemIssue| (s.index as int, s.error))
}

/// Decode a title column value.
pub fn decode_title(v: &JsonValue) -> (r: (String, u64))
    ensures
        r.0@ == spec_decode_title(*v).0,
        r.1 == spec_decode_title(*v).1,
{
    match v {
        JsonValue::Null => (String::new(), 0),
        JsonValue::Str(s) => (s.clone(), 0),
        _ => {
            let number: u64 = match json_get(v, "number") {
                Some(nv) => match nv {
                    JsonValue::Num(o) => match o {
                        Some(n) => *n,
                        None => 0,
                    },
                    _ => 0,
                },
                None => 0,
            };
            let title: String = match json_get(v, "title") {
                Some(tv) => match json_get(tv, "raw") {
                    Some(rv) => match rv {
                        JsonValue::Str(s) => s.clone(),
                        _ => String::new(),
                    },
                    None => String::new(),
                },
                None => String::new(),
            };
            (title, number)
        },
    }
}

/// Decode a status column value.
pub fn decode_status(v: &JsonValue) -> (r: String)
    ensures
        r@ == spec_decode_status(*v),
{
    match v {
        JsonValue::Null => String::new(),
        _ => match json_get(v, "id") {
            Some(iv) => match iv {
                JsonValue::Str(s) => s.clone(),
                _ => String::new(),
            },
            None => String::new(),
        },
    }
}

/// Decode a repository column value.
pub fn decode_repo(v: &JsonValue) -> (r: String)
    ensures
        r@ == spec_decode_repo(*v),
{
    match json_get(v, "name") {
        Some(nv) => match nv {
            JsonValue::Str(s) => s.clone(),
            _ => String::new(),
        },
        None => String::new(),
    }
}

/// Decode an assignees column value.
pub fn decode_assignees(v: &JsonValue) -> (r: Vec<MemexAssignee>)
    ensures
        r@.map_values(|a: MemexAssignee| a.login@) == spec_decode_assignees(*v),
{
    match v {
        JsonValue::Arr(items) => {
            let n: usize = items.len();
            let mut out: Vec<MemexAssignee> = Vec::new();
            let mut i: usize = 0;
            proof {
                assert(out@.map_values(|a: MemexAssignee| a.login@) =~= items@.map_values(
                    |it: JsonValue| spec_assignee_login(it),
                ).take(0));
            }
            while i < n
                invariant
                    *v == JsonValue::Arr(*items),
                    n == items@.len(),
                    i <= n,
                    out@.map_values(|a: MemexAssignee| a.login@) == items@.map_values(
                        |it: JsonValue| spec_assignee_login(it),
                    ).take(i as int),
                decreases n - i,
            {
                let login: String = match json_get(&items[i], "login") {
                    Some(lv) => match lv {
                        JsonValue::Str(s) => s.clone(),
                        _ => String::new(),
                    },
                    None => String::new(),
                };
                proof {
                    assert(spec_assignee_login(items@[i as int]) == login@);
                }
                let ghost prev = out@.map_values(|a: MemexAssignee| a.login@);
                out.push(MemexAssignee { login });
                proof {
                    let f = |it: JsonValue| spec_assignee_login(it);
                    assert(items@.map_values(f)[i as int] == f(items@[i as int]));
                    assert(out@.map_values(|a: MemexAssignee| a.login@) =~= prev.push(
                        f(items@[i as int]),
                    ));
                    assert(items@.map_values(f).take((i + 1) as int) =~= items@.map_values(f).take(
                        i as int,
                    ).push(items@.map_values(f)[i as int]));
                }
                i += 1;
            }
            proof {
                let f = |it: JsonValue| spec_assignee_login(it);
                assert(items@.map_values(f).take(n as int) =~= items@.map_values(f));
            }
            out
        },
        _ => {
            proof {
                assert(Seq::<MemexAssignee>::empty().map_values(|a: MemexAssignee| a.login@)
                    =~= Seq::<Seq<char>>::empty());
            }
            Vec::new()
        },
    }
}

/// Decode one column entry by its type tag.
pub fn decode_column(entry: &JsonValue) -> (r: Result<Option<MemexProjectColumn>, DecodeError>)
    ensures
        match r {
            Ok(Some(c)) => spec_decode_column(*entry) == Ok::<Option<ColumnView>, DecodeError>(
                Some(c@),
            ),
            Ok(None) => spec_decode_column(*entry) == Ok::<Option<ColumnView>, DecodeError>(None),
            Err(e) => spec_decode_column(*entry) == Err::<Option<ColumnView>, DecodeError>(e),
        },
{
    let tag: &String = match json_get(entry, "memexProjectColumnId") {
        Some(tv) => match tv {
            JsonValue::Str(s) => s,
            _ => {
                return Err(DecodeError::ColumnNotTagged);
            },
        },
        None => {
            return Err(DecodeError::ColumnNotTagged);
        },
    };
    let null_value = JsonValue::Null;
    let value: &JsonValue = match json_get(entry, "value") {
        Some(v) => v,
        None => &null_value,
    };
    proof {
        assert(*value == spec_column_value(*entry));
    }
    if str_eq(tag.as_str(), "Title") {
        let (title, number) = decode_title(value);
        Ok(Some(MemexProjectColumn::Title { title, number }))
    } else if str_eq(tag.as_str(), "Status") {
        let id = decode_status(value);
        Ok(Some(MemexProjectColumn::Status { id }))
    } else if str_eq(tag.as_str(), "Assignees") {
        let assignees = decode_assignees(value);
        Ok(Some(MemexProjectColumn::Assignees { assignees }))
    } else if str_eq(tag.as_str(), "Repository") {
        let name = decode_repo(value);
        Ok(Some(MemexProjectColumn::Repository { name }))
    } else {
        Ok(None)
    }
}

/// An unclassifiable entry in a prefix fails the whole column array.
proof fn lemma_entries_err_persists(entries: Seq<JsonValue>, i: int)
    requires
        0 <= i <= entries.len(),
        spec_decode_entries(entries.take(i)) is Err,
    ensures
        spec_decode_entries(entries) == spec_decode_entries(entries.take(i)),
    decreases entries.len() - i,
{
    if i < entries.len() {
        assert(entries.take(i + 1).drop_last() =~= entries.take(i));
        lemma_entries_err_persists(entries, i + 1);
    } else {
        assert(entries.take(i) =~= entries);
    }
}

/// Decode one item's column array.
pub fn decode_columns(v: &JsonValue) -> (r: Result<Vec<MemexProjectColumn>, DecodeError>)
    ensures
        match r {
            Ok(cols) => spec_decode_columns(*v) == Ok::<Seq<ColumnView>, DecodeError>(
                cols@.map_values(|c: MemexProjectColumn| c@),
            ),
            Err(e) => spec_decode_columns(*v) == Err::<Seq<ColumnView>, DecodeError>(e),
        },
{
    match v {
        JsonValue::Arr(entries) => {
            let n: usize = entries.len();
            let mut out: Vec<MemexProjectColumn> = Vec::new();
            let mut i: usize = 0;
            proof {
                assert(entries@.take(0) =~= Seq::<JsonValue>::empty());
                assert(out@.map_values(|c: MemexProjectColumn| c@) =~= Seq::<ColumnView>::empty());
            }
            while i < n
                invariant
                    *v == JsonValue::Arr(*entries),
                    n == entries@.len(),
                    i <= n,
                    spec_decode_entries(entries@.take(i as int)) == Ok::<
                        Seq<ColumnView>,
                        DecodeError,
                    >(out@.map_values(|c: MemexProjectColumn| c@)),
                decreases n - i,
            {
                proof {
                    assert(entries@.take((i + 1) as int).drop_last() =~= entries@.take(i as int));
                    assert(entries@.take((i + 1) as int).last() == entries@[i as int]);
                }
                match decode_column(&entries[i]) {
                    Err(e) => {
                        proof {
                            lemma_entries_err_persists(entries@, (i + 1) as int);
                        }
                        return Err(e);
                    },
                    Ok(None) => {},
                    Ok(Some(c)) => {
                        let ghost prev = out@.map_values(|c2: MemexProjectColumn| c2@);
                        let ghost cv = c@;
                        out.push(c);
                        proof {
                            assert(out@.map_values(|c2: MemexProjectColumn| c2@) =~= prev.push(cv));
                        }
                    },
                }
                i += 1;
            }
            proof {
                assert(entries@.take(n as int) =~= entries@);
            }
            Ok(out)
        },
        _ => Err(DecodeError::ColumnsNotAList),
    }
}

/// Decode one item: its identifier and its column list.
pub fn decode_item(v: &JsonValue) -> (r: Result<MemexItem, DecodeError>)
    ensures
        match r {
            Ok(it) => spec_decode_item(*v) == Ok::<ItemView, DecodeError>(it@),
            Err(e) => spec_decode_item(*v) == Err::<ItemView, DecodeError>(e),
        },
{
    let id: u64 = match json_get(v, "id") {
        Some(nv) => match nv {
            JsonValue::Num(o) => match o {
                Some(n) => *n,
                None => 0,
            },
            _ => 0,
        },
        None => 0,
    };
    let null_value = JsonValue::Null;
    let cols_v: &JsonValue = match json_get(v, "memexProjectColumnValues") {
        Some(c) => c,
        None => &null_value,
    };
    match decode_columns(cols_v) {
        Err(e) => Err(e),
        Ok(cols) => Ok(MemexItem { id, memex_project_column_values: cols }),
    }
}

/// Decode the item collection: every well-formed item in document order,
/// and an issue for each defective one, which never aborts its siblings.
pub fn decode_items(v: &JsonValue) -> (r: Result<(Vec<MemexItem>, Vec<ItemIssue>), DecodeError>)
    ensures
        match r {
            Ok(p) => spec_decode_items(*v) == Ok::<
                (Seq<ItemView>, Seq<(int, DecodeError)>),
                DecodeError,
            >((p.0@.map_values(|it: MemexItem| it@), issues_view(p.1@))),
            Err(e) => spec_decode_items(*v) == Err::<
                (Seq<ItemView>, Seq<(int, DecodeError)>),
                DecodeError,
            >(e),
        },
{
    match v {
        JsonValue::Arr(entries) => {
            let n: usize = entries.len();
            let mut items: Vec<MemexItem> = Vec::new();
            let mut issues: Vec<ItemIssue> = Vec::new();
            let mut i: usize = 0;
            proof {
                assert(entries@.take(0) =~= Seq::<JsonValue>::empty());
                assert(items@.map_values(|it: MemexItem| it@) =~= Seq::<ItemView>::empty());
                assert(issues_view(issues@) =~= Seq::<(int, DecodeError)>::empty());
            }
            while i < n
                invariant
                    *v == JsonValue::Arr(*entries),
                    n == entries@.len(),
                    i <= n,
                    spec_decode_items_list(entries@.take(i as int)) == (
                        items@.map_values(|it: MemexItem| it@),
                        issues_view(issues@),
                    ),
                decreases n - i,
            {
                proof {
                    assert(entries@.take((i + 1) as int).drop_last() =~= entries@.take(i as int));
                    assert(entries@.take((i + 1) as int).last() == entries@[i as int]);
                }
                match decode_item(&entries[i]) {
                    Ok(it) => {
                        items.push(it);
                        proof {
                            assert(items@.map_values(|t: MemexItem| t@) =~= items@.drop_last(
                            ).map_values(|t: MemexItem| t@).push(it@));
                        }
                    },
                    Err(e) => {
                        issues.push(ItemIssue { index: i, error: e });
                        proof {
                            assert(issues_view(issues@) =~= issues_view(issues@.drop_last()).push(
                                (i as int, e),
                            ));
                        }
                    },
                }
                i += 1;
            }
            proof {
                assert(entries@.take(n as int) =~= entries@);
            }
            Ok((items, issues))
        },
        _ => Err(DecodeError::ItemsNotAList),
    }
}

} // verus!
