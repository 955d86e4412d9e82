//! A log entry, the names of its fields, and the choice of the fields that
//! a read fetches.

use vstd::prelude::*;
use vstd::string::StringExecFns;
use crate::columns::{find, ColumnsMap, Pairs, Value, ValueView};
use crate::error::Error;
use crate::id::Id;
use crate::text::{contains, copy_names};

verus! {

/// Status of an entry whose outcome is not known yet.
pub const PENDING: i8 = 0;

/// Status of an entry whose action succeeded.
pub const SUCCESS: i8 = 1;

/// Status of an entry whose action failed.
pub const FAILURE: i8 = -1;

/// The names of the fields of an entry, in the order of the schema.
pub const FIELDS: [&'static str; 9] = [
    "uid",
    "id",
    "action",
    "status",
    "gid",
    "ip",
    "payload",
    "tokens",
    "error",
];

/// The full field set.
pub open spec fn all_fields() -> Seq<Seq<char>> {
    Seq::new(9, |i: int| FIELDS[i]@)
}

/// `name` is a field of an entry.
pub open spec fn is_field(name: Seq<char>) -> bool {
    all_fields().contains(name)
}

/// `fields`, with `name` at the end unless it is there already.
pub open spec fn with_field(fields: Seq<Seq<char>>, name: Seq<char>) -> Seq<Seq<char>> {
    if fields.contains(name) {
        fields
    } else {
        fields.push(name)
    }
}

/// Every name in `requested` is a field.
pub open spec fn all_valid(requested: Seq<Seq<char>>) -> bool {
    forall|i: int| 0 <= i < requested.len() ==> is_field(#[trigger] requested[i])
}

/// `i` is the place of the first name in `requested` that is no field.
pub open spec fn first_invalid(requested: Seq<Seq<char>>, i: int) -> bool {
    &&& 0 <= i < requested.len()
    &&& !is_field(requested[i])
    &&& forall|j: int| 0 <= j < i ==> is_field(#[trigger] requested[j])
}

/// The fields that a read fetches when the caller asks for `requested`:
/// everything where nothing is asked for; else what is asked for, then the
/// action and the status, and with `with_pk` the owner and the identifier,
/// each added at the end where it is missing.
pub open spec fn projection(requested: Seq<Seq<char>>, with_pk: bool) -> Seq<Seq<char>> {
    if requested.len() == 0 {
        all_fields()
    } else {
        let mandatory = with_field(with_field(requested, "action"@), "status"@);
        if with_pk {
            with_field(with_field(mandatory, "uid"@), "id"@)
        } else {
            mandatory
        }
    }
}

/// Whatever is asked for, a read fetches the action and the status, and
/// with `with_pk` the owner and the identifier too.
pub proof fn lemma_projection_mandatory(requested: Seq<Seq<char>>, with_pk: bool)
    ensures
        projection(requested, with_pk).contains("action"@),
        projection(requested, with_pk).contains("status"@),
        with_pk ==> projection(requested, with_pk).contains("uid"@),
        with_pk ==> projection(requested, with_pk).contains("id"@),
{
    let all = all_fields();
    assert(all[0] == "uid"@ && all[1] == "id"@ && all[2] == "action"@ && all[3] == "status"@);
    if requested.len() > 0 {
        let one = with_field(requested, "action"@);
        lemma_with_field(requested, "action"@, "action"@);
        lemma_with_field(one, "status"@, "action"@);
        lemma_with_field(one, "status"@, "status"@);
        let two = with_field(one, "status"@);
        if with_pk {
            let three = with_field(two, "uid"@);
            lemma_with_field(two, "uid"@, "action"@);
            lemma_with_field(two, "uid"@, "status"@);
            lemma_with_field(two, "uid"@, "uid"@);
            lemma_with_field(three, "id"@, "action"@);
            lemma_with_field(three, "id"@, "status"@);
            lemma_with_field(three, "id"@, "uid"@);
            lemma_with_field(three, "id"@, "id"@);
        }
    }
}

/// Adding a field keeps what was there and makes the field be there.
pub proof fn lemma_with_field(fields: Seq<Seq<char>>, name: Seq<char>, other: Seq<char>)
    ensures
        with_field(fields, name).contains(name),
        fields.contains(other) ==> with_field(fields, name).contains(other),
        with_field(fields, name).contains(other) ==> fields.contains(other) || other == name,
{
    let after = with_field(fields, name);
    if !fields.contains(name) {
        assert(after[fields.len() as int] == name);
        if fields.contains(other) {
            let k = choose|k: int| 0 <= k < fields.len() && fields[k] == other;
            assert(after[k] == other);
        }
    }
}

/// The fields that a read fetches are fields, and there is at least one.
pub proof fn lemma_projection_valid(requested: Seq<Seq<char>>, with_pk: bool)
    requires
        all_valid(requested),
    ensures
        all_valid(projection(requested, with_pk)),
        projection(requested, with_pk).len() > 0,
{
    let all = all_fields();
    assert(all[0] == "uid"@ && all[1] == "id"@ && all[2] == "action"@ && all[3] == "status"@);
    assert(is_field("uid"@) && is_field("id"@) && is_field("action"@) && is_field("status"@));
    assert forall|i: int| 0 <= i < all.len() implies is_field(#[trigger] all[i]) by {}
}

/// One audited action.
#[derive(Debug)]
pub struct Log {
    /// The owner.
    pub uid: Id,
    /// The entry's own identifier; it carries the creation time.
    pub id: Id,
    /// The code of the action.
    pub action: i8,
    /// Pending, success or failure.
    pub status: i8,
    /// The group that the action concerns.
    pub gid: Id,
    /// Where the request came from.
    pub ip: String,
    /// Diagnostic data.
    pub payload: Vec<u8>,
    /// Usage counter.
    pub tokens: i32,
    /// Diagnostic message; empty means none.
    pub error: String,
    /// The fields that the last read fetched. Not stored.
    pub _fields: Vec<String>,
}

/// What a [`Log`] holds.
pub struct LogView {
    pub uid: Seq<u8>,
    pub id: Seq<u8>,
    pub action: i8,
    pub status: i8,
    pub gid: Seq<u8>,
    pub ip: Seq<char>,
    pub payload: Seq<u8>,
    pub tokens: i32,
    pub error: Seq<char>,
    pub fields: Seq<Seq<char>>,
}

impl View for Log {
    type V = LogView;

    open spec fn view(&self) -> LogView {
        LogView {
            uid: self.uid@,
            id: self.id@,
            action: self.action,
            status: self.status,
            gid: self.gid@,
            ip: self.ip@,
            payload: self.payload@,
            tokens: self.tokens,
            error: self.error@,
            fields: self._fields.deep_view(),
        }
    }
}

/// Twelve zero bytes.
pub open spec fn zero_id() -> Seq<u8> {
    Seq::new(12, |i: int| 0u8)
}

/// The entry of owner `uid` and identifier `id` with every other field at
/// its default.
pub open spec fn blank(uid: Seq<u8>, id: Seq<u8>) -> LogView {
    LogView {
        uid,
        id,
        action: 0,
        status: 0,
        gid: zero_id(),
        ip: Seq::empty(),
        payload: Seq::empty(),
        tokens: 0,
        error: Seq::empty(),
        fields: Seq::empty(),
    }
}

/// An identifier field after a fill: kept where the column is missing, the
/// column's twelve bytes where it holds them, zero otherwise.
pub open spec fn id_column(column: Option<ValueView>, keep: Seq<u8>) -> Seq<u8> {
    match column {
        None => keep,
        Some(ValueView::Blob(b)) => if b.len() == 12 {
            b
        } else {
            zero_id()
        },
        Some(_) => zero_id(),
    }
}

/// An 8-bit field after a fill.
pub open spec fn tiny_column(column: Option<ValueView>, keep: i8) -> i8 {
    match column {
        None => keep,
        Some(ValueView::TinyInt(v)) => v,
        Some(_) => 0,
    }
}

/// A 32-bit field after a fill.
pub open spec fn int_column(column: Option<ValueView>, keep: i32) -> i32 {
    match column {
        None => keep,
        Some(ValueView::Int(v)) => v,
        Some(_) => 0,
    }
}

/// A text field after a fill.
pub open spec fn text_column(column: Option<ValueView>, keep: Seq<char>) -> Seq<char> {
    match column {
        None => keep,
        Some(ValueView::Text(v)) => v,
        Some(_) => Seq::empty(),
    }
}

/// A bytes field after a fill.
pub open spec fn blob_column(column: Option<ValueView>, keep: Seq<u8>) -> Seq<u8> {
    match column {
        None => keep,
        Some(ValueView::Blob(v)) => v,
        Some(_) => Seq::empty(),
    }
}

/// The entry `log` after it took every column of `cols` that is named like
/// one of its fields. A column of another type than its field, a null
/// among them, leaves the field at its default.
pub open spec fn filled(log: LogView, cols: Pairs) -> LogView {
    LogView {
        uid: id_column(find(cols, "uid"@), log.uid),
        id: id_column(find(cols, "id"@), log.id),
        action: tiny_column(find(cols, "action"@), log.action),
        status: tiny_column(find(cols, "status"@), log.status),
        gid: id_column(find(cols, "gid"@), log.gid),
        ip: text_column(find(cols, "ip"@), log.ip),
        payload: blob_column(find(cols, "payload"@), log.payload),
        tokens: int_column(find(cols, "tokens"@), log.tokens),
        error: text_column(find(cols, "error"@), log.error),
        fields: log.fields,
    }
}

impl Clone for Log {
    /// A copy of the entry.
    fn clone(&self) -> (copy: Log)
        ensures
            copy@ == self@,
    {
        Log {
            uid: self.uid,
            id: self.id,
            action: self.action,
            status: self.status,
            gid: self.gid,
            ip: self.ip.clone(),
            payload: self.payload.clone(),
            tokens: self.tokens,
            error: self.error.clone(),
            _fields: copy_names(&self._fields),
        }
    }
}

impl Default for Log {
    /// The entry with every field at its default.
    fn default() -> (log: Log)
        ensures
            log@ == blank(zero_id(), zero_id()),
    {
        Log::with_pk(Id::zero(), Id::zero())
    }
}

fn id_from(column: Option<&Value>, keep: Id) -> (id: Id)
    ensures
        id@ == id_column(
            match column {
                Some(v) => Some(v@),
                None => None,
            },
            keep@,
        ),
{
    match column {
        None => keep,
        Some(Value::Blob(b)) => match Id::from_slice(b) {
            Some(id) => id,
            None => Id::zero(),
        },
        Some(_) => Id::zero(),
    }
}

impl Log {
    /// The entry of owner `uid` and identifier `id`, every other field at its
    /// default.
    pub fn with_pk(uid: Id, id: Id) -> (log: Log)
        ensures
            log@ == blank(uid@, id@),
    {
        let log = Log {
            uid,
            id,
            action: 0,
            status: 0,
            gid: Id::zero(),
            ip: String::new(),
            payload: Vec::new(),
            tokens: 0,
            error: String::new(),
            _fields: Vec::new(),
        };
        assert(log@.fields =~= Seq::empty());
        log
    }

    /// The names of all fields, in the order of the schema.
    pub fn fields() -> (names: Vec<String>)
        ensures
            names.deep_view() == all_fields(),
    {
        let mut names: Vec<String> = Vec::with_capacity(9);
        let mut i: usize = 0;
        while i < 9
            invariant
                i <= 9,
                names.deep_view() == all_fields().take(i as int),
            decreases 9 - i,
        {
            let ghost before = names.deep_view();
            names.push(String::from_str(FIELDS[i]));
            assert(names.deep_view() =~= before.push(FIELDS[i as int]@));
            assert(before.push(FIELDS[i as int]@) =~= all_fields().take(i + 1));
            i += 1;
        }
        assert(all_fields().take(9) =~= all_fields());
        names
    }

    /// Resolves the fields that a caller asks for into the fields that a
    /// read fetches. An empty request means every field. Otherwise each name
    /// must be a field, and the action and the status are fetched whether
    /// asked for or not; with `with_pk`, so are the owner and the identifier.
    pub fn select_fields(select_fields: Vec<String>, with_pk: bool) -> (r: Result<
        Vec<String>,
        Error,
    >)
        ensures
            r is Err <==> !all_valid(select_fields.deep_view()),
            match r {
                Ok(fields) => {
                    &&& all_valid(select_fields.deep_view())
                    &&& fields.deep_view() == projection(select_fields.deep_view(), with_pk)
                },
                Err(e) => {
                    &&& e matches Error::InvalidField(name)
                    &&& exists|i: int|
                        first_invalid(select_fields.deep_view(), i) && name@
                            == select_fields.deep_view()[i]
                },
            },
    {
        if select_fields.len() == 0 {
            return Ok(Self::fields());
        }
        let ghost requested = select_fields.deep_view();
        let fields = Self::fields();
        let mut i: usize = 0;
        while i < select_fields.len()
            invariant
                i <= select_fields.len(),
                requested == select_fields.deep_view(),
                fields.deep_view() == all_fields(),
                forall|j: int| 0 <= j < i ==> is_field(#[trigger] requested[j]),
            decreases select_fields.len() - i,
        {
            if !contains(&fields, select_fields[i].as_str()) {
                assert(first_invalid(requested, i as int));
                return Err(Error::InvalidField(select_fields[i].clone()));
            }
            i += 1;
        }
        let mut select_fields = select_fields;
        if !contains(&select_fields, "action") {
            select_fields.push(String::from_str("action"));
            assert(select_fields.deep_view() =~= with_field(requested, "action"@));
        }
        let ghost one = select_fields.deep_view();
        if !contains(&select_fields, "status") {
            select_fields.push(String::from_str("status"));
            assert(select_fields.deep_view() =~= with_field(one, "status"@));
        }
        if with_pk {
            let ghost two = select_fields.deep_view();
            if !contains(&select_fields, "uid") {
                select_fields.push(String::from_str("uid"));
                assert(select_fields.deep_view() =~= with_field(two, "uid"@));
            }
            let ghost three = select_fields.deep_view();
            if !contains(&select_fields, "id") {
                select_fields.push(String::from_str("id"));
                assert(select_fields.deep_view() =~= with_field(three, "id"@));
            }
        }
        Ok(select_fields)
    }

    /// Takes from `cols` every column that is named like a field. A column
    /// of another type than its field leaves the field at its default.
    pub fn fill(&mut self, cols: &ColumnsMap)
        ensures
            final(self)@ == filled(old(self)@, cols@),
    {
        self.uid = id_from(cols.get("uid"), self.uid);
        self.id = id_from(cols.get("id"), self.id);
        match cols.get("action") {
            None => {},
            Some(Value::TinyInt(v)) => {
                self.action = *v;
            },
            Some(_) => {
                self.action = 0;
            },
        }
        match cols.get("status") {
            None => {},
            Some(Value::TinyInt(v)) => {
                self.status = *v;
            },
            Some(_) => {
                self.status = 0;
            },
        }
        self.gid = id_from(cols.get("gid"), self.gid);
        match cols.get("ip") {
            None => {},
            Some(Value::Text(v)) => {
                self.ip = v.clone();
            },
            Some(_) => {
                self.ip = String::new();
            },
        }
        match cols.get("payload") {
            None => {},
            Some(Value::Blob(v)) => {
                self.payload = v.clone();
            },
            Some(_) => {
                self.payload = Vec::new();
            },
        }
        match cols.get("tokens") {
            None => {},
            Some(Value::Int(v)) => {
                self.tokens = *v;
            },
            Some(_) => {
                self.tokens = 0;
            },
        }
        match cols.get("error") {
            None => {},
            Some(Value::Text(v)) => {
                self.error = v.clone();
            },
            Some(_) => {
                self.error = String::new();
            },
        }
        assert(self@.payload =~= filled(old(self)@, cols@).payload);
        assert(self@.ip =~= filled(old(self)@, cols@).ip);
        assert(self@.error =~= filled(old(self)@, cols@).error);
    }
}

} // verus!
