//! The board model: decoded items plus the status-id to human-name
//! lookup table, with query and filter operations.
use vstd::prelude::*;

use crate::decode::{
    decode_items, issues_view, spec_decode_items, DecodeError, ItemIssue,
};
use crate::json::{json_get, json_tree_of, spec_get, JsonValue};
use crate::proto::{
    spec_contains_assignee, spec_status_id, ItemView, MemexAssignee, MemexItem,
    MemexProjectColumn,
};
use crate::strutil::{spec_dec, str_eq, string_from_chars, u64_to_dec_chars};

verus! {

/// One entry of the enumerated set of allowed status values.
pub struct MemexDataTypeOption {
    pub id: String,
    pub name: String,
}

/// Settings of a column-type definition: its option list, when it has
/// one.
pub struct MemexDataTypeSettings {
    pub options: Option<Vec<MemexDataTypeOption>>,
}

/// One column-type definition: its id and its settings.
pub struct MemexDataType {
    pub id: String,
    pub settings: Option<MemexDataTypeSettings>,
}

/// Mathematical form of one status option.
pub struct OptionView {
    pub id: Seq<char>,
    pub name: Seq<char>,
}

/// Mathematical form of one column-type definition.
pub struct DataTypeView {
    pub id: Seq<char>,
    pub options: Option<Seq<OptionView>>,
}

impl View for MemexDataTypeOption {
    type V = OptionView;

    open spec fn view(&self) -> OptionView {
        OptionView { id: self.id@, name: self.name@ }
    }
}

impl View for MemexDataType {
    type V = DataTypeView;

    open spec fn view(&self) -> DataTypeView {
        DataTypeView {
            id: self.id@,
            options: match self.settings {
                Some(st) => match st.options {
                    Some(opts) => Some(opts@.map_values(|o: MemexDataTypeOption| o@)),
                    None => None,
                },
                None => None,
            },
        }
    }
}

/// First column-type definition with the given id, if any.
pub open spec fn spec_find_datatype(cols: Seq<DataTypeView>, id: Seq<char>) -> Option<DataTypeView>
    decreases cols.len(),
{
    if cols.len() == 0 {
        None
    } else if cols[0].id == id {
        Some(cols[0])
    } else {
        spec_find_datatype(cols.drop_first(), id)
    }
}

/// First option with the given id, if any.
pub open spec fn spec_find_option(opts: Seq<OptionView>, id: Seq<char>) -> Option<OptionView>
    decreases opts.len(),
{
    if opts.len() == 0 {
        None
    } else if opts[0].id == id {
        Some(opts[0])
    } else {
        spec_find_option(opts.drop_first(), id)
    }
}

/// Human name of a status id: found by locating the column-type
/// definition whose id is `Status` and searching its option list;
/// absence at any level yields no mapping, never an empty name.
pub open spec fn spec_status_name(cols: Seq<DataTypeView>, id: Seq<char>) -> Option<Seq<char>> {
    match spec_find_datatype(cols, "Status"@) {
        None => None,
        Some(dt) => match dt.options {
            None => None,
            Some(opts) => match spec_find_option(opts, id) {
                None => None,
                Some(o) => Some(o.name),
            },
        },
    }
}

/// An id read from a value that may be a string or a number: a number is
/// shown as its decimal digits, and anything else degrades to empty.
pub open spec fn spec_id_string(v: JsonValue) -> Seq<char> {
    match v {
        JsonValue::Str(s) => s@,
        JsonValue::Num(Some(n)) => spec_dec(n as nat),
        _ => Seq::empty(),
    }
}

/// A field of an object, or null when it is absent.
pub open spec fn spec_field_or_null(v: JsonValue, key: Seq<char>) -> JsonValue {
    match spec_get(v, key) {
        Some(x) => x,
        None => JsonValue::Null,
    }
}

/// One status option decoded from its JSON object.
pub open spec fn spec_decode_option(v: JsonValue) -> OptionView {
    OptionView {
        id: spec_id_string(spec_field_or_null(v, "id"@)),
        name: match spec_get(v, "name"@) {
            Some(JsonValue::Str(s)) => s@,
            _ => Seq::empty(),
        },
    }
}

/// An option list decoded from a JSON value: only a list gives one.
pub open spec fn spec_decode_options(v: JsonValue) -> Option<Seq<OptionView>> {
    match v {
        JsonValue::Arr(items) => Some(items@.map_values(|it: JsonValue| spec_decode_option(it))),
        _ => None,
    }
}

/// One column-type definition decoded from its JSON object: its id, and
/// the option list found under `settings.options` when both levels are
/// present.
pub open spec fn spec_decode_datatype(v: JsonValue) -> DataTypeView {
    DataTypeView {
        id: spec_id_string(spec_field_or_null(v, "id"@)),
        options: spec_decode_options(
            spec_field_or_null(spec_field_or_null(v, "settings"@), "options"@),
        ),
    }
}

/// The column-type collection: it must be a list; each entry then decodes
/// totally, degrading absent pieces to empty defaults.
pub open spec fn spec_decode_datatypes(v: JsonValue) -> Result<Seq<DataTypeView>, DecodeError> {
    match v {
        JsonValue::Arr(entries) => Ok(
            entries@.map_values(|it: JsonValue| spec_decode_datatype(it)),
        ),
        _ => Err(DecodeError::ColumnTypesNotAList),
    }
}

/// Decode an id that may be a string or a number.
pub fn decode_id_string(v: &JsonValue) -> (r: String)
    ensures
        r@ == spec_id_string(*v),
{
    match v {
        JsonValue::Str(s) => s.clone(),
        JsonValue::Num(o) => match o {
            Some(n) => string_from_chars(&u64_to_dec_chars(*n)),
            None => String::new(),
        },
        _ => String::new(),
    }
}

/// Decode one status option.
pub fn decode_option_entry(v: &JsonValue) -> (r: MemexDataTypeOption)
    ensures
        r@ == spec_decode_option(*v),
{
    let null_value = JsonValue::Null;
    let idv: &JsonValue = match json_get(v, "id") {
        Some(x) => x,
        None => &null_value,
    };
    let id = decode_id_string(idv);
    let name: String = match json_get(v, "name") {
        Some(nv) => match nv {
            JsonValue::Str(s) => s.clone(),
            _ => String::new(),
        },
        None => String::new(),
    };
    MemexDataTypeOption { id, name }
}

/// Decode one column-type definition.
pub fn decode_datatype(v: &JsonValue) -> (r: MemexDataType)
    ensures
        r@ == spec_decode_datatype(*v),
{
    let null_value = JsonValue::Null;
    let idv: &JsonValue = match json_get(v, "id") {
        Some(x) => x,
        None => &null_value,
    };
    let id = decode_id_string(idv);
    let settings_v: &JsonValue = match json_get(v, "settings") {
        Some(x) => x,
        None => &null_value,
    };
    let options_v: &JsonValue = match json_get(settings_v, "options") {
        Some(x) => x,
        None => &null_value,
    };
    proof {
        assert(*options_v == spec_field_or_null(
            spec_field_or_null(*v, "settings"@),
            "options"@,
        ));
    }
    match options_v {
        JsonValue::Arr(items) => {
            let n: usize = items.len();
            let mut opts: Vec<MemexDataTypeOption> = Vec::new();
            let mut i: usize = 0;
            proof {
                assert(opts@.map_values(|o: MemexDataTypeOption| o@) =~= items@.map_values(
                    |it: JsonValue| spec_decode_option(it),
                ).take(0));
            }
            while i < n
                invariant
                    *options_v == JsonValue::Arr(*items),
                    n == items@.len(),
                    i <= n,
                    opts@.map_values(|o: MemexDataTypeOption| o@) == items@.map_values(
                        |it: JsonValue| spec_decode_option(it),
                    ).take(i as int),
                decreases n - i,
            {
                let o = decode_option_entry(&items[i]);
                let ghost prev = opts@.map_values(|o2: MemexDataTypeOption| o2@);
                opts.push(o);
                proof {
                    let f = |it: JsonValue| spec_decode_option(it);
                    assert(items@.map_values(f)[i as int] == f(items@[i as int]));
                    assert(opts@.map_values(|o2: MemexDataTypeOption| o2@) =~= prev.push(
                        f(items@[i as int]),
                    ));
                    assert(items@.map_values(f).take((i + 1) as int) =~= items@.map_values(f).take(
                        i as int,
                    ).push(items@.map_values(f)[i as int]));
                }
                i += 1;
            }
            proof {
                let f = |it: JsonValue| spec_decode_option(it);
                assert(items@.map_values(f).take(n as int) =~= items@.map_values(f));
            }
            MemexDataType { id, settings: Some(MemexDataTypeSettings { options: Some(opts) }) }
        },
        _ => MemexDataType { id, settings: None },
    }
}

/// Decode the column-type collection.
pub fn decode_datatypes(v: &JsonValue) -> (r: Result<Vec<MemexDataType>, DecodeError>)
    ensures
        match r {
            Ok(cols) => spec_decode_datatypes(*v) == Ok::<Seq<DataTypeView>, DecodeError>(
                cols@.map_values(|c: MemexDataType| c@),
            ),
            Err(e) => spec_decode_datatypes(*v) == Err::<Seq<DataTypeView>, DecodeError>(e),
        },
{
    match v {
        JsonValue::Arr(entries) => {
            let n: usize = entries.len();
            let mut out: Vec<MemexDataType> = Vec::new();
            let mut i: usize = 0;
            proof {
                assert(out@.map_values(|c: MemexDataType| c@) =~= entries@.map_values(
                    |it: JsonValue| spec_decode_datatype(it),
                ).take(0));
            }
            while i < n
                invariant
                    *v == JsonValue::Arr(*entries),
                    n == entries@.len(),
                    i <= n,
                    out@.map_values(|c: MemexDataType| c@) == entries@.map_values(
                        |it: JsonValue| spec_decode_datatype(it),
                    ).take(i as int),
                decreases n - i,
            {
                let dt = decode_datatype(&entries[i]);
                let ghost prev = out@.map_values(|c: MemexDataType| c@);
                out.push(dt);
                proof {
                    let f = |it: JsonValue| spec_decode_datatype(it);
                    assert(entries@.map_values(f)[i as int] == f(entries@[i as int]));
                    assert(out@.map_values(|c: MemexDataType| c@) =~= prev.push(
                        f(entries@[i as int]),
                    ));
                    assert(entries@.map_values(f).take((i + 1) as int) =~= entries@.map_values(
                        f,
                    ).take(i as int).push(entries@.map_values(f)[i as int]));
                }
                i += 1;
            }
            proof {
                let f = |it: JsonValue| spec_decode_datatype(it);
                assert(entries@.map_values(f).take(n as int) =~= entries@.map_values(f));
            }
            Ok(out)
        },
        _ => Err(DecodeError::ColumnTypesNotAList),
    }
}

/// The abstract interface of one board item, as the display layer reads
/// it.
pub trait IMemexItem: View<V = ItemView> {
    /// Whether one of the item's assignees matches the given login.
    fn contains_assignee(&self, username: &str) -> (r: bool)
        ensures
            r == spec_contains_assignee(self@.columns, username@),
    ;

    /// Status id of the item, or empty when it has none.
    fn status_id(&self) -> (r: String)
        ensures
            r@ == spec_status_id(self@.columns),
    ;

    /// Issue number of the item, or zero when it has none.
    fn number(&self) -> (r: u64)
        ensures
            r == crate::proto::spec_number(self@.columns),
    ;

    /// Title of the item, or empty when it has none.
    fn title(&self) -> (r: String)
        ensures
            r@ == crate::proto::spec_title(self@.columns),
    ;

    /// The item's assignee logins joined with commas.
    fn assignees(&self) -> (r: String)
        ensures
            r@ == crate::proto::spec_join_logins(crate::proto::spec_logins(self@.columns)),
    ;
}

impl IMemexItem for MemexItem {
    fn contains_assignee(&self, username: &str) -> (r: bool) {
        MemexItem::contains_assignee(self, username)
    }

    fn status_id(&self) -> (r: String) {
        MemexItem::status_id(self)
    }

    fn number(&self) -> (r: u64) {
        MemexItem::number(self)
    }

    fn title(&self) -> (r: String) {
        MemexItem::title(self)
    }

    fn assignees(&self) -> (r: String) {
        MemexItem::assignees(self)
    }
}

/// Deep copy of one assignee.
pub fn clone_assignee(a: &MemexAssignee) -> (r: MemexAssignee)
    ensures
        r.login@ == a.login@,
{
    MemexAssignee { login: a.login.clone() }
}

/// Deep copy of one column.
pub fn clone_column(c: &MemexProjectColumn) -> (r: MemexProjectColumn)
    ensures
        r@ == c@,
{
    match c {
        MemexProjectColumn::Title { title, number } => MemexProjectColumn::Title {
            title: title.clone(),
            number: *number,
        },
        MemexProjectColumn::Status { id } => MemexProjectColumn::Status { id: id.clone() },
        MemexProjectColumn::Assignees { assignees } => {
            let n: usize = assignees.len();
            let mut out: Vec<MemexAssignee> = Vec::new();
            let mut i: usize = 0;
            proof {
                assert(out@.map_values(|a: MemexAssignee| a.login@) =~= assignees@.map_values(
                    |a: MemexAssignee| a.login@,
                ).take(0));
            }
            while i < n
                invariant
                    n == assignees@.len(),
                    i <= n,
                    out@.map_values(|a: MemexAssignee| a.login@) == assignees@.map_values(
                        |a: MemexAssignee| a.login@,
                    ).take(i as int),
                decreases n - i,
            {
                let a = clone_assignee(&assignees[i]);
                let ghost prev = out@.map_values(|a2: MemexAssignee| a2.login@);
                out.push(a);
                proof {
                    let f = |a2: MemexAssignee| a2.login@;
                    assert(assignees@.map_values(f)[i as int] == f(assignees@[i as int]));
                    assert(out@.map_values(f) =~= prev.push(f(assignees@[i as int])));
                    assert(assignees@.map_values(f).take((i + 1) as int) =~= assignees@.map_values(
                        f,
                    ).take(i as int).push(assignees@.map_values(f)[i as int]));
                }
                i += 1;
            }
            proof {
                let f = |a2: MemexAssignee| a2.login@;
                assert(assignees@.map_values(f).take(n as int) =~= assignees@.map_values(f));
            }
            MemexProjectColumn::Assignees { assignees: out }
        },
        MemexProjectColumn::Repository { name } => MemexProjectColumn::Repository {
            name: name.clone(),
        },
    }
}

/// Deep copy of one item.
pub fn clone_item(it: &MemexItem) -> (r: MemexItem)
    ensures
        r@ == it@,
{
    let cols = &it.memex_project_column_values;
    let n: usize = cols.len();
    let mut out: Vec<MemexProjectColumn> = Vec::new();
    let mut i: usize = 0;
    proof {
        assert(out@.map_values(|c: MemexProjectColumn| c@) =~= cols@.map_values(
            |c: MemexProjectColumn| c@,
        ).take(0));
    }
    while i < n
        invariant
            n == cols@.len(),
            i <= n,
            out@.map_values(|c: MemexProjectColumn| c@) == cols@.map_values(
                |c: MemexProjectColumn| c@,
            ).take(i as int),
        decreases n - i,
    {
        let c = clone_column(&cols[i]);
        let ghost prev = out@.map_values(|c2: MemexProjectColumn| c2@);
        let ghost cv = c@;
        out.push(c);
        proof {
            let f = |c2: MemexProjectColumn| c2@;
            assert(cols@.map_values(f)[i as int] == f(cols@[i as int]));
            assert(out@.map_values(f) =~= prev.push(cv));
            assert(cols@.map_values(f).take((i + 1) as int) =~= cols@.map_values(f).take(
                i as int,
            ).push(cols@.map_values(f)[i as int]));
        }
        i += 1;
    }
    proof {
        let f = |c2: MemexProjectColumn| c2@;
        assert(cols@.map_values(f).take(n as int) =~= cols@.map_values(f));
    }
    MemexItem { id: it.id, memex_project_column_values: out }
}

/// Mathematical form of a board.
pub struct BoardView {
    pub items: Seq<ItemView>,
    pub columns: Seq<DataTypeView>,
}

/// The decoded item collection plus the status-name lookup table.
pub struct Board {
    items: Vec<MemexItem>,
    columns: Vec<MemexDataType>,
}

impl View for Board {
    type V = BoardView;

    closed spec fn view(&self) -> BoardView {
        BoardView {
            items: self.items@.map_values(|it: MemexItem| it@),
            columns: self.columns@.map_values(|c: MemexDataType| c@),
        }
    }
}

impl Board {
    /// The items on the board, in document order.
    pub fn items(&self) -> (r: &Vec<MemexItem>)
        ensures
            r@.map_values(|it: MemexItem| it@) == self@.items,
    {
        &self.items
    }

    /// The human-readable name of a status id, or nothing when the id has
    /// no entry in the options table; an absent mapping is distinct from
    /// any real name, the empty one included.
    pub fn get_status_name(&self, id: &str) -> (r: Option<String>)
        ensures
            match r {
                Some(s) => spec_status_name(self@.columns, id@) == Some(s@),
                None => spec_status_name(self@.columns, id@) is None,
            },
    {
        let n: usize = self.columns.len();
        let ghost cv = self@.columns;
        let mut i: usize = 0;
        proof {
            assert(cv.skip(0) =~= cv);
        }
        while i < n
            invariant
                n == self.columns@.len(),
                cv == self@.columns,
                i <= n,
                spec_find_datatype(cv, "Status"@) == spec_find_datatype(cv.skip(i as int), "Status"@),
            decreases n - i,
        {
            proof {
                assert(cv.skip(i as int)[0] == cv[i as int]);
                assert(cv.skip(i as int).drop_first() =~= cv.skip((i + 1) as int));
                assert(cv[i as int] == self.columns@[i as int]@);
            }
            if str_eq(self.columns[i].id.as_str(), "Status") {
                proof {
                    assert(spec_find_datatype(cv.skip(i as int), "Status"@) == Some(cv[i as int]));
                }
                match &self.columns[i].settings {
                    None => {
                        return None;
                    },
                    Some(st) => match &st.options {
                        None => {
                            return None;
                        },
                        Some(opts) => {
                            let m: usize = opts.len();
                            let ghost ov = opts@.map_values(|o: MemexDataTypeOption| o@);
                            let mut j: usize = 0;
                            proof {
                                assert(cv[i as int].options == Some(ov));
                                assert(ov.skip(0) =~= ov);
                            }
                            while j < m
                                invariant
                                    m == opts@.len(),
                                    ov == opts@.map_values(|o: MemexDataTypeOption| o@),
                                    cv == self@.columns,
                                    spec_find_datatype(cv, "Status"@) == Some(cv[i as int]),
                                    i < n == self.columns@.len(),
                                    cv[i as int].options == Some(ov),
                                    j <= m,
                                    spec_find_option(ov, id@) == spec_find_option(
                                        ov.skip(j as int),
                                        id@,
                                    ),
                                decreases m - j,
                            {
                                proof {
                                    assert(ov.skip(j as int)[0] == ov[j as int]);
                                    assert(ov.skip(j as int).drop_first() =~= ov.skip(
                                        (j + 1) as int,
                                    ));
                                    assert(ov[j as int] == opts@[j as int]@);
                                }
                                if str_eq(opts[j].id.as_str(), id) {
                                    proof {
                                        assert(spec_find_option(ov.skip(j as int), id@) == Some(
                                            ov[j as int],
                                        ));
                                    }
                                    return Some(opts[j].name.clone());
                                }
                                j += 1;
                            }
                            proof {
                                assert(ov.skip(m as int) =~= Seq::<OptionView>::empty());
                            }
                            return None;
                        },
                    },
                }
            }
            i += 1;
        }
        proof {
            assert(cv.skip(n as int) =~= Seq::<DataTypeView>::empty());
        }
        None
    }

    /// The items whose status id matches, in order.
    pub fn filter_by_status(&self, id: &str) -> (r: Vec<MemexItem>)
        ensures
            r@.map_values(|it: MemexItem| it@) == self@.items.filter(
                |it: ItemView| spec_status_id(it.columns) == id@,
            ),
    {
        let n: usize = self.items.len();
        let ghost iv = self@.items;
        let ghost pred = |it: ItemView| spec_status_id(it.columns) == id@;
        let mut out: Vec<MemexItem> = Vec::new();
        let mut i: usize = 0;
        proof {
            reveal_with_fuel(Seq::filter, 1);
            assert(iv.take(0) =~= Seq::<ItemView>::empty());
            assert(out@.map_values(|it: MemexItem| it@) =~= iv.take(0).filter(pred));
        }
        while i < n
            invariant
                n == self.items@.len(),
                iv == self@.items,
                pred == (|it: ItemView| spec_status_id(it.columns) == id@),
                i <= n,
                out@.map_values(|it: MemexItem| it@) == iv.take(i as int).filter(pred),
            decreases n - i,
        {
            proof {
                assert(iv.take((i + 1) as int).drop_last() =~= iv.take(i as int));
                assert(iv.take((i + 1) as int).last() == iv[i as int]);
                assert(iv[i as int] == self.items@[i as int]@);
            }
            let sid = self.items[i].status_id();
            if str_eq(sid.as_str(), id) {
                let it = clone_item(&self.items[i]);
                let ghost prev = out@.map_values(|t: MemexItem| t@);
                let ghost itv = it@;
                out.push(it);
                proof {
                    assert(out@.map_values(|t: MemexItem| t@) =~= prev.push(itv));
                    assert(pred(iv[i as int]));
                    reveal_with_fuel(Seq::filter, 2);
                    assert(iv.take((i + 1) as int).filter(pred) == iv.take(i as int).filter(
                        pred,
                    ).push(iv[i as int]));
                }
            } else {
                proof {
                    assert(!pred(iv[i as int]));
                    reveal_with_fuel(Seq::filter, 2);
                    assert(iv.take((i + 1) as int).filter(pred) == iv.take(i as int).filter(pred));
                }
            }
            i += 1;
        }
        proof {
            assert(iv.take(n as int) =~= iv);
        }
        out
    }

    /// The items one of whose assignees matches the given login, in
    /// order; the match is case-sensitive and exact.
    pub fn filter_by_assignee(&self, login: &str) -> (r: Vec<MemexItem>)
        ensures
            r@.map_values(|it: MemexItem| it@) == self@.items.filter(
                |it: ItemView| spec_contains_assignee(it.columns, login@),
            ),
    {
        let n: usize = self.items.len();
        let ghost iv = self@.items;
        let ghost pred = |it: ItemView| spec_contains_assignee(it.columns, login@);
        let mut out: Vec<MemexItem> = Vec::new();
        let mut i: usize = 0;
        proof {
            reveal_with_fuel(Seq::filter, 1);
            assert(iv.take(0) =~= Seq::<ItemView>::empty());
            assert(out@.map_values(|it: MemexItem| it@) =~= iv.take(0).filter(pred));
        }
        while i < n
            invariant
                n == self.items@.len(),
                iv == self@.items,
                pred == (|it: ItemView| spec_contains_assignee(it.columns, login@)),
                i <= n,
                out@.map_values(|it: MemexItem| it@) == iv.take(i as int).filter(pred),
            decreases n - i,
        {
            proof {
                assert(iv.take((i + 1) as int).drop_last() =~= iv.take(i as int));
                assert(iv.take((i + 1) as int).last() == iv[i as int]);
                assert(iv[i as int] == self.items@[i as int]@);
            }
            if self.items[i].contains_assignee(login) {
                let it = clone_item(&self.items[i]);
                let ghost prev = out@.map_values(|t: MemexItem| t@);
                let ghost itv = it@;
                out.push(it);
                proof {
                    assert(out@.map_values(|t: MemexItem| t@) =~= prev.push(itv));
                    assert(pred(iv[i as int]));
                    reveal_with_fuel(Seq::filter, 2);
                    assert(iv.take((i + 1) as int).filter(pred) == iv.take(i as int).filter(
                        pred,
                    ).push(iv[i as int]));
                }
            } else {
                proof {
                    assert(!pred(iv[i as int]));
                    reveal_with_fuel(Seq::filter, 2);
                    assert(iv.take((i + 1) as int).filter(pred) == iv.take(i as int).filter(pred));
                }
            }
            i += 1;
        }
        proof {
            assert(iv.take(n as int) =~= iv);
        }
        out
    }

    /// Build the board from the two parsed JSON collections: every
    /// well-formed item plus one issue per defective item, or the first
    /// document-level defect.
    pub fn from_json(items_v: &JsonValue, columns_v: &JsonValue) -> (r: Result<
        (Board, Vec<ItemIssue>),
        DecodeError,
    >)
        ensures
            match r {
                Ok(p) => {
                    &&& spec_decode_items(*items_v) matches Ok(d)
                    &&& spec_decode_datatypes(*columns_v) matches Ok(cols)
                    &&& p.0@.items == d.0
                    &&& issues_view(p.1@) == d.1
                    &&& p.0@.columns == cols
                },
                Err(e) => match spec_decode_items(*items_v) {
                    Err(e1) => e == e1,
                    Ok(_) => spec_decode_datatypes(*columns_v) == Err::<
                        Seq<DataTypeView>,
                        DecodeError,
                    >(e),
                },
            },
    {
        let (items, issues) = match decode_items(items_v) {
            Ok(p) => p,
            Err(e) => {
                return Err(e);
            },
        };
        let columns = match decode_datatypes(columns_v) {
            Ok(c) => c,
            Err(e) => {
                return Err(e);
            },
        };
        Ok((Board { items, columns }, issues))
    }

    /// Build the board from the two raw JSON texts: a text that is not
    /// well-formed JSON fails the whole construction, and the trees of
    /// well-formed texts decode exactly as `from_json` says.
    pub fn from_json_text(items_text: &str, columns_text: &str) -> (r: Result<
        (Board, Vec<ItemIssue>),
        DecodeError,
    >)
        ensures
            match r {
                Ok(p) => {
                    &&& json_tree_of(items_text@) matches Some(iv)
                    &&& json_tree_of(columns_text@) matches Some(cv)
                    &&& spec_decode_items(iv) matches Ok(d)
                    &&& spec_decode_datatypes(cv) matches Ok(cols)
                    &&& p.0@.items == d.0
                    &&& issues_view(p.1@) == d.1
                    &&& p.0@.columns == cols
                },
                Err(e) => {
                    if json_tree_of(items_text@) is None || json_tree_of(columns_text@) is None {
                        e == DecodeError::MalformedJson
                    } else {
                        match spec_decode_items(json_tree_of(items_text@)->Some_0) {
                            Err(e1) => e == e1,
                            Ok(_) => spec_decode_datatypes(json_tree_of(columns_text@)->Some_0)
                                == Err::<Seq<DataTypeView>, DecodeError>(e),
                        }
                    }
                },
            },
    {
        let items_v = match crate::json::parse_json(items_text) {
            Some(v) => v,
            None => {
                return Err(DecodeError::MalformedJson);
            },
        };
        let columns_v = match crate::json::parse_json(columns_text) {
            Some(v) => v,
            None => {
                return Err(DecodeError::MalformedJson);
            },
        };
        Board::from_json(&items_v, &columns_v)
    }
}

} // verus!
