//! Domain model of a project board: the tagged column union, the board
//! item, and the per-item accessors that read the column list.
use vstd::prelude::*;

use crate::strutil::{chars_vec, str_eq, string_from_chars};

verus! {

/// One assignee of a board item.
#[derive(Debug)]
pub struct MemexAssignee {
    pub login: String,
}

/// One decoded column of a board item: the variant is selected by the
/// column-type tag found in the source, and each variant holds the
/// type-appropriate empty default when the source value was null or
/// lacked the nested field.
#[derive(Debug)]
pub enum MemexProjectColumn {
    Title { title: String, number: u64 },
    Status { id: String },
    Assignees { assignees: Vec<MemexAssignee> },
    Repository { name: String },
}

/// One board item: an opaque identifier plus its column list.
#[derive(Debug)]
pub struct MemexItem {
    pub id: u64,
    pub memex_project_column_values: Vec<MemexProjectColumn>,
}

/// Mathematical form of one column.
pub enum ColumnView {
    TitleV { title: Seq<char>, number: u64 },
    StatusV { id: Seq<char> },
    AssigneesV { logins: Seq<Seq<char>> },
    RepositoryV { name: Seq<char> },
}

/// Mathematical form of one item.
pub struct ItemView {
    pub id: u64,
    pub columns: Seq<ColumnView>,
}

impl View for MemexProjectColumn {
    type V = ColumnView;

    open spec fn view(&self) -> ColumnView {
        match self {
            MemexProjectColumn::Title { title, number } => ColumnView::TitleV {
                title: title@,
                number: *number,
            },
            MemexProjectColumn::Status { id } => ColumnView::StatusV { id: id@ },
            MemexProjectColumn::Assignees { assignees } => ColumnView::AssigneesV {
                logins: assignees@.map_values(|a: MemexAssignee| a.login@),
            },
            MemexProjectColumn::Repository { name } => ColumnView::RepositoryV { name: name@ },
        }
    }
}

impl View for MemexItem {
    type V = ItemView;

    open spec fn view(&self) -> ItemView {
        ItemView {
            id: self.id,
            columns: self.memex_project_column_values@.map_values(|c: MemexProjectColumn| c@),
        }
    }
}

/// Status id of a column list: the id of the last status column, or the
/// empty string when there is none.
pub open spec fn spec_status_id(cols: Seq<ColumnView>) -> Seq<char>
    decreases cols.len(),
{
    if cols.len() == 0 {
        Seq::empty()
    } else {
        match cols.last() {
            ColumnView::StatusV { id } => id,
            _ => spec_status_id(cols.drop_last()),
        }
    }
}

/// Issue number of a column list: the number of the last title column, or
/// zero when there is none.
pub open spec fn spec_number(cols: Seq<ColumnView>) -> u64
    decreases cols.len(),
{
    if cols.len() == 0 {
        0
    } else {
        match cols.last() {
            ColumnView::TitleV { title, number } => number,
            _ => spec_number(cols.drop_last()),
        }
    }
}

/// Title of a column list: the title of the last title column, or the
/// empty string when there is none.
pub open spec fn spec_title(cols: Seq<ColumnView>) -> Seq<char>
    decreases cols.len(),
{
    if cols.len() == 0 {
        Seq::empty()
    } else {
        match cols.last() {
            ColumnView::TitleV { title, number } => title,
            _ => spec_title(cols.drop_last()),
        }
    }
}

/// Assignee logins of a column list: those of the last assignees column,
/// or the empty list when there is none.
pub open spec fn spec_logins(cols: Seq<ColumnView>) -> Seq<Seq<char>>
    decreases cols.len(),
{
    if cols.len() == 0 {
        Seq::empty()
    } else {
        match cols.last() {
            ColumnView::AssigneesV { logins } => logins,
            _ => spec_logins(cols.drop_last()),
        }
    }
}

/// The given login list joined with commas.
pub open spec fn spec_join_logins(logins: Seq<Seq<char>>) -> Seq<char>
    decreases logins.len(),
{
    if logins.len() == 0 {
        Seq::empty()
    } else if logins.len() == 1 {
        logins[0]
    } else {
        spec_join_logins(logins.drop_last()) + ","@ + logins.last()
    }
}

/// The login list names the given login.
pub open spec fn logins_has(logins: Seq<Seq<char>>, user: Seq<char>) -> bool {
    exists|j: int| 0 <= j < logins.len() && (#[trigger] logins[j]) == user
}

/// The column is an assignees column that lists the given login.
pub open spec fn col_has_login(c: ColumnView, user: Seq<char>) -> bool {
    match c {
        ColumnView::AssigneesV { logins } => logins_has(logins, user),
        _ => false,
    }
}

/// Some assignees column of the list names the given login.
pub open spec fn spec_contains_assignee(cols: Seq<ColumnView>, user: Seq<char>) -> bool {
    exists|i: int| 0 <= i < cols.len() && col_has_login(#[trigger] cols[i], user)
}

impl MemexItem {
    /// Whether one of the item's assignees matches the given login,
    /// character for character.
    pub fn contains_assignee(&self, username: &str) -> (r: bool)
        ensures
            r == spec_contains_assignee(self@.columns, username@),
    {
        let cols = &self.memex_project_column_values;
        let n: usize = cols.len();
        let mut found: bool = false;
        let mut i: usize = 0;
        while i < n
            invariant
                n == cols@.len(),
                self@.columns == cols@.map_values(|c: MemexProjectColumn| c@),
                i <= n,
                found == exists|k: int|
                    0 <= k < i && col_has_login(#[trigger] self@.columns[k], username@),
            decreases n - i,
        {
            match &cols[i] {
                MemexProjectColumn::Assignees { assignees } => {
                    let ghost la = assignees@.map_values(|a: MemexAssignee| a.login@);
                    let m: usize = assignees.len();
                    let mut j: usize = 0;
                    while j < m
                        invariant
                            m == assignees@.len(),
                            la == assignees@.map_values(|a: MemexAssignee| a.login@),
                            i < n == cols@.len(),
                            self@.columns == cols@.map_values(|c: MemexProjectColumn| c@),
                            cols@[i as int]@ == (ColumnView::AssigneesV { logins: la }),
                            j <= m,
                            found == ((exists|k: int|
                                0 <= k < i && col_has_login(#[trigger] self@.columns[k], username@))
                                || (exists|t: int| 0 <= t < j && #[trigger] la[t] == username@)),
                        decreases m - j,
                    {
                        proof {
                            assert(la[j as int] == assignees@[j as int].login@);
                        }
                        if str_eq(assignees[j].login.as_str(), username) {
                            found = true;
                        }
                        j += 1;
                    }
                    proof {
                        assert(la.len() == m);
                        assert(self@.columns[i as int] == cols@[i as int]@);
                        if found && !(exists|k: int|
                            0 <= k < i && col_has_login(#[trigger] self@.columns[k], username@)) {
                            let t = choose|t: int| 0 <= t < j && #[trigger] la[t] == username@;
                            assert(0 <= t < la.len() && la[t] == username@);
                            assert(logins_has(la, username@));
                            assert(col_has_login(self@.columns[i as int], username@));
                        }
                        if col_has_login(self@.columns[i as int], username@) {
                            let t = choose|t: int| 0 <= t < la.len() && la[t] == username@;
                            assert(0 <= t < m && la[t] == username@);
                            assert(exists|t2: int| 0 <= t2 < j && #[trigger] la[t2] == username@);
                            assert(found);
                        }
                        if found {
                            if exists|k: int|
                                0 <= k < i && col_has_login(#[trigger] self@.columns[k], username@) {
                                let k = choose|k: int|
                                    0 <= k < i && col_has_login(
                                        #[trigger] self@.columns[k],
                                        username@,
                                    );
                                assert(0 <= k < i + 1 && col_has_login(self@.columns[k], username@));
                            } else {
                                assert(col_has_login(self@.columns[i as int], username@));
                            }
                        } else {
                            assert forall|k: int| 0 <= k < i + 1 implies !col_has_login(
                                #[trigger] self@.columns[k],
                                username@,
                            ) by {
                                if k == i {
                                    assert(!col_has_login(self@.columns[i as int], username@));
                                }
                            }
                        }
                    }
                },
                _ => {
                    proof {
                        assert(!col_has_login(self@.columns[i as int], username@));
                        if found {
                            let k = choose|k: int|
                                0 <= k < i && col_has_login(#[trigger] self@.columns[k], username@);
                            assert(0 <= k < i + 1 && col_has_login(self@.columns[k], username@));
                        } else {
                            assert forall|k: int| 0 <= k < i + 1 implies !col_has_login(
                                #[trigger] self@.columns[k],
                                username@,
                            ) by {
                                if k == i {
                                    assert(!col_has_login(self@.columns[i as int], username@));
                                }
                            }
                        }
                    }
                },
            }
            i += 1;
        }
        found
    }

    /// Status id of the item: the id of its last status column, or empty.
    pub fn status_id(&self) -> (r: String)
        ensures
            r@ == spec_status_id(self@.columns),
    {
        let cols = &self.memex_project_column_values;
        let n: usize = cols.len();
        let mut out: String = String::new();
        let mut i: usize = 0;
        while i < n
            invariant
                n == cols@.len(),
                self@.columns == cols@.map_values(|c: MemexProjectColumn| c@),
                i <= n,
                out@ == spec_status_id(self@.columns.take(i as int)),
            decreases n - i,
        {
            proof {
                assert(self@.columns.take((i + 1) as int).drop_last() =~= self@.columns.take(
                    i as int,
                ));
                assert(self@.columns.take((i + 1) as int).last() == self@.columns[i as int]);
            }
            match &cols[i] {
                MemexProjectColumn::Status { id } => {
                    out = id.clone();
                },
                _ => {},
            }
            i += 1;
        }
        proof {
            assert(self@.columns.take(n as int) =~= self@.columns);
        }
        out
    }

    /// Issue number of the item: the number of its last title column, or
    /// zero.
    pub fn number(&self) -> (r: u64)
        ensures
            r == spec_number(self@.columns),
    {
        let cols = &self.memex_project_column_values;
        let n: usize = cols.len();
        let mut out: u64 = 0;
        let mut i: usize = 0;
        while i < n
            invariant
                n == cols@.len(),
                self@.columns == cols@.map_values(|c: MemexProjectColumn| c@),
                i <= n,
                out == spec_number(self@.columns.take(i as int)),
            decreases n - i,
        {
            proof {
                assert(self@.columns.take((i + 1) as int).drop_last() =~= self@.columns.take(
                    i as int,
                ));
                assert(self@.columns.take((i + 1) as int).last() == self@.columns[i as int]);
            }
            match &cols[i] {
                MemexProjectColumn::Title { title, number } => {
                    out = *number;
                },
                _ => {},
            }
            i += 1;
        }
        proof {
            assert(self@.columns.take(n as int) =~= self@.columns);
        }
        out
    }

    /// Title of the item: the title of its last title column, or empty.
    pub fn title(&self) -> (r: String)
        ensures
            r@ == spec_title(self@.columns),
    {
        let cols = &self.memex_project_column_values;
        let n: usize = cols.len();
        let mut out: String = String::new();
        let mut i: usize = 0;
        while i < n
            invariant
                n == cols@.len(),
                self@.columns == cols@.map_values(|c: MemexProjectColumn| c@),
                i <= n,
                out@ == spec_title(self@.columns.take(i as int)),
            decreases n - i,
        {
            proof {
                assert(self@.columns.take((i + 1) as int).drop_last() =~= self@.columns.take(
                    i as int,
                ));
                assert(self@.columns.take((i + 1) as int).last() == self@.columns[i as int]);
            }
            match &cols[i] {
                MemexProjectColumn::Title { title, number } => {
                    out = title.clone();
                },
                _ => {},
            }
            i += 1;
        }
        proof {
            assert(self@.columns.take(n as int) =~= self@.columns);
        }
        out
    }

    /// The logins of the item's last assignees column, in order.
    pub fn assignee_logins(&self) -> (r: Vec<String>)
        ensures
            r@.map_values(|s: String| s@) == spec_logins(self@.columns),
    {
        let cols = &self.memex_project_column_values;
        let n: usize = cols.len();
        let mut out: Vec<String> = Vec::new();
        let mut i: usize = 0;
        while i < n
            invariant
                n == cols@.len(),
                self@.columns == cols@.map_values(|c: MemexProjectColumn| c@),
                i <= n,
                out@.map_values(|s: String| s@) == spec_logins(self@.columns.take(i as int)),
            decreases n - i,
        {
            proof {
                assert(self@.columns.take((i + 1) as int).drop_last() =~= self@.columns.take(
                    i as int,
                ));
                assert(self@.columns.take((i + 1) as int).last() == self@.columns[i as int]);
            }
            match &cols[i] {
                MemexProjectColumn::Assignees { assignees } => {
                    let m: usize = assignees.len();
                    let mut fresh: Vec<String> = Vec::new();
                    let mut j: usize = 0;
                    while j < m
                        invariant
                            m == assignees@.len(),
                            j <= m,
                            fresh@.map_values(|s: String| s@) == assignees@.map_values(
                                |a: MemexAssignee| a.login@,
                            ).take(j as int),
                        decreases m - j,
                    {
                        fresh.push(assignees[j].login.clone());
                        proof {
                            let av = assignees@.map_values(|a: MemexAssignee| a.login@);
                            assert(av[j as int] == assignees@[j as int].login@);
                            assert(av.take((j + 1) as int) =~= av.take(j as int).push(av[j as int]));
                            assert(fresh@.map_values(|s: String| s@) =~= av.take((j + 1) as int));
                        }
                        j += 1;
                    }
                    proof {
                        assert(assignees@.map_values(|a: MemexAssignee| a.login@).take(m as int)
                            =~= assignees@.map_values(|a: MemexAssignee| a.login@));
                    }
                    out = fresh;
                },
                _ => {},
            }
            i += 1;
        }
        proof {
            assert(self@.columns.take(n as int) =~= self@.columns);
        }
        out
    }

    /// The item's assignee logins joined with commas.
    pub fn assignees(&self) -> (r: String)
        ensures
            r@ == spec_join_logins(spec_logins(self@.columns)),
    {
        let logins = self.assignee_logins();
        let ghost lv = logins@.map_values(|s: String| s@);
        let n: usize = logins.len();
        let mut out: Vec<char> = Vec::new();
        let mut i: usize = 0;
        while i < n
            invariant
                n == logins@.len(),
                lv == logins@.map_values(|s: String| s@),
                i <= n,
                out@ == spec_join_logins(lv.take(i as int)),
            decreases n - i,
        {
            proof {
                assert(lv.take((i + 1) as int).drop_last() =~= lv.take(i as int));
                assert(lv.take((i + 1) as int).last() == lv[i as int]);
            }
            if i > 0 {
                out.push(',');
            }
            let add = chars_vec(logins[i].as_str());
            let mut k: usize = 0;
            let ghost base = out@;
            while k < add.len()
                invariant
                    k <= add@.len(),
                    out@ == base + add@.take(k as int),
                decreases add@.len() - k,
            {
                out.push(add[k]);
                proof {
                    assert(base + add@.take((k + 1) as int) =~= (base + add@.take(k as int)).push(
                        add@[k as int],
                    ));
                }
                k += 1;
            }
            proof {
                reveal_strlit(",");
                assert(add@.take(add@.len() as int) =~= add@);
                if i == 0 {
                    assert(out@ =~= spec_join_logins(lv.take((i + 1) as int)));
                } else {
                    assert(out@ =~= spec_join_logins(lv.take(i as int)) + ","@ + lv[i as int]);
                }
            }
            i += 1;
        }
        proof {
            assert(lv.take(n as int) =~= lv);
        }
        string_from_chars(&out)
    }
}

} // verus!
