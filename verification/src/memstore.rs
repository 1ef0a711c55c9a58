use vstd::prelude::*;

use crate::coremap::as_map;
use crate::coremap::find_idx;
use crate::coremap::lemma_as_map_contains;
use crate::coremap::lemma_as_map_index;
use crate::coremap::lemma_as_map_push;
use crate::coremap::lemma_as_map_remove;
use crate::coremap::lemma_as_map_update;
use crate::coremap::unique_keys;
use crate::kvengine::KVEBlob;
use crate::kvengine::KVEListMap;
use crate::kvengine::spec_encoding_ok;
use crate::responses::TSYMBOL_BINARY;
use crate::responses::TSYMBOL_UNICODE;
use crate::responses::ascii_bytes;

verus! {

broadcast use vstd::slice::group_slice_axioms;

// ---------------------------------------------------------------------------
// Identifier grammar
// ---------------------------------------------------------------------------

/// May `b` open an identifier? (`[A-Za-z_]`)
pub open spec fn spec_head_ok(b: u8) -> bool {
    (65 <= b <= 90) || (97 <= b <= 122) || b == 95
}

/// May `b` continue an identifier? (`[A-Za-z0-9_]`)
pub open spec fn spec_tail_ok(b: u8) -> bool {
    spec_head_ok(b) || (48 <= b <= 57)
}

/// The object identifier grammar `[A-Za-z_][A-Za-z0-9_]*`. Byte length is
/// constrained separately (`< 64`).
pub open spec fn spec_name_ok(s: Seq<u8>) -> bool {
    s.len() > 0 && spec_head_ok(s[0]) && (forall|i: int| 1 <= i < s.len() ==> spec_tail_ok(#[trigger] s[i]))
}

/// Check a byte string against the identifier grammar.
pub fn name_ok(s: &[u8]) -> (r: bool)
    ensures
        r == spec_name_ok(s@),
{
    if s.len() == 0 {
        return false;
    }
    let b0 = *vstd::slice::slice_index_get(s, 0);
    if !((b0 >= 65 && b0 <= 90) || (b0 >= 97 && b0 <= 122) || b0 == 95) {
        return false;
    }
    let mut i: usize = 1;
    while i < s.len()
        invariant
            1 <= i <= s@.len(),
            spec_head_ok(s@[0]),
            forall|j: int| 1 <= j < i ==> spec_tail_ok(#[trigger] s@[j]),
        decreases s@.len() - i,
    {
        let b = *vstd::slice::slice_index_get(s, i);
        if !((b >= 65 && b <= 90) || (b >= 97 && b <= 122) || b == 95 || (b >= 48 && b <= 57)) {
            return false;
        }
        i = i + 1;
    }
    true
}

// ---------------------------------------------------------------------------
// Tables
// ---------------------------------------------------------------------------

/// Errors of the data-definition operations.
#[derive(Clone, Copy, Debug, PartialEq, Eq, Structural)]
pub enum DdlError {
    /// Creation of a duplicate container.
    AlreadyExists,
    /// Non-forced drop of a keyspace that still holds tables.
    NotEmpty,
    /// The named container does not exist.
    ContainerNotFound,
    /// No container is selected.
    DefaultContainerUnset,
}

/// Errors of resolving the currently selected table.
#[derive(Clone, Copy, Debug, PartialEq, Eq, Structural)]
pub enum TableError {
    /// No table is selected.
    DefaultContainerUnset,
    /// The selection dangles: its keyspace or table was dropped.
    ContainerNotFound,
    /// The selected table has a different model than the action needs.
    WrongModel,
}

/// The mathematical shape of one table.
#[verifier::ext_equal]
pub struct TableModel {
    pub volatile: bool,
    pub is_list: bool,
    pub k_enc: bool,
    pub v_enc: bool,
    pub kv: Map<Seq<u8>, Seq<u8>>,
    pub lists: Map<Seq<u8>, Seq<Seq<u8>>>,
}

/// The mathematical shape of one keyspace.
#[verifier::ext_equal]
pub struct KeyspaceModel {
    pub tables: Map<Seq<u8>, TableModel>,
}

/// The mathematical shape of the whole store, selection included.
#[verifier::ext_equal]
pub struct StoreModel {
    pub keyspaces: Map<Seq<u8>, KeyspaceModel>,
    pub cur_ks: Option<Seq<u8>>,
    pub cur_tbl: Option<Seq<u8>>,
}

/// The empty table a model code describes.
pub open spec fn model_of_code(code: int, volatile: bool) -> TableModel {
    TableModel {
        volatile,
        is_list: code >= 4,
        k_enc: code == 2 || code == 3 || code == 6 || code == 7,
        v_enc: code % 2 == 1,
        kv: Map::empty(),
        lists: Map::empty(),
    }
}

/// The payload of a table: either a blob map or a map of lists.
pub enum TableData {
    Blob(KVEBlob),
    List(KVEListMap),
}

/// A table: a tagged container payload plus its volatility flag.
pub struct Table {
    volatile: bool,
    data: TableData,
}

impl Table {
    pub closed spec fn wf(&self) -> bool {
        match self.data {
            TableData::Blob(b) => b.wf(),
            TableData::List(l) => l.wf(),
        }
    }

    pub closed spec fn view(&self) -> TableModel {
        match self.data {
            TableData::Blob(b) => TableModel {
                volatile: self.volatile,
                is_list: false,
                k_enc: b.spec_encoded_k(),
                v_enc: b.spec_encoded_v(),
                kv: b.view(),
                lists: Map::empty(),
            },
            TableData::List(l) => TableModel {
                volatile: self.volatile,
                is_list: true,
                k_enc: l.spec_encoded_id(),
                v_enc: l.spec_encoded_payload(),
                kv: Map::empty(),
                lists: l.view(),
            },
        }
    }

    /// The stable wire form of a model: bit 2 list-ness, bit 1 key
    /// encoding, bit 0 value encoding, giving codes 0 through 7.
    pub open spec fn spec_model_code(t: TableModel) -> int {
        (if t.is_list {
            4int
        } else {
            0int
        }) + (if t.k_enc {
            2int
        } else {
            0int
        }) + (if t.v_enc {
            1int
        } else {
            0int
        })
    }

    /// Build an empty table from its model code.
    pub fn from_model_code(code: u8, volatile: bool) -> (r: Option<Table>)
        ensures
            match r {
                Some(t) => {
                    &&& code < 8
                    &&& t.wf()
                    &&& Self::spec_model_code(t@) == code as int
                    &&& t@ == model_of_code(code as int, volatile)
                },
                None => code >= 8,
            },
    {
        if code >= 8 {
            return None;
        }
        let is_list = code >= 4;
        let k_enc = (code & 2) != 0;
        let v_enc = (code & 1) != 0;
        proof {
            assert(code < 4 ==> (code & 2 == 2) == (code == 2 || code == 3)) by (bit_vector);
            assert(code >= 4 && code < 8 ==> (code & 2 == 2) == (code == 6 || code == 7))
                by (bit_vector);
            assert((code & 1 == 1) == (code == 1 || code == 3 || code == 5 || code == 7) || code
                >= 8) by (bit_vector);
            assert((code & 2 == 0) || (code & 2 == 2)) by (bit_vector);
            assert((code & 1 == 0) || (code & 1 == 1)) by (bit_vector);
        }
        let data = if is_list {
            TableData::List(KVEListMap::new(k_enc, v_enc))
        } else {
            TableData::Blob(KVEBlob::new(k_enc, v_enc))
        };
        Some(Table { volatile, data })
    }

    /// The table's model code.
    pub fn model_code(&self) -> (r: u8)
        ensures
            r as int == Self::spec_model_code(self@),
    {
        let (is_list, k_enc, v_enc) = match &self.data {
            TableData::Blob(b) => (false, b.is_key_encoded(), b.is_val_encoded()),
            TableData::List(l) => (true, l.is_id_encoded(), l.is_payload_encoded()),
        };
        (if is_list {
            4u8
        } else {
            0u8
        }) + (if k_enc {
            2u8
        } else {
            0u8
        }) + (if v_enc {
            1u8
        } else {
            0u8
        })
    }

    /// The type symbol its values carry in responses: `+` for unicode, `?`
    /// for binary.
    pub fn get_value_tsymbol(&self) -> (r: u8)
        ensures
            r == (if self@.v_enc {
                TSYMBOL_UNICODE
            } else {
                TSYMBOL_BINARY
            }),
    {
        let v_enc = match &self.data {
            TableData::Blob(b) => b.is_val_encoded(),
            TableData::List(l) => l.is_payload_encoded(),
        };
        if v_enc {
            TSYMBOL_UNICODE
        } else {
            TSYMBOL_BINARY
        }
    }
}

// ---------------------------------------------------------------------------
// Keyspaces
// ---------------------------------------------------------------------------

/// A named collection of tables.
pub struct Keyspace {
    tables: Vec<(Vec<u8>, Table)>,
}

impl Keyspace {
    pub closed spec fn wf(&self) -> bool {
        unique_keys(self.tables@) && (forall|i: int|
            0 <= i < self.tables@.len() ==> (#[trigger] self.tables@[i]).1.wf())
    }

    pub closed spec fn view(&self) -> KeyspaceModel {
        KeyspaceModel { tables: as_map(self.tables@).map_values(|t: Table| t.view()) }
    }

    /// A keyspace with no tables.
    pub fn empty() -> (r: Keyspace)
        ensures
            r.wf(),
            r@.tables == Map::<Seq<u8>, TableModel>::empty(),
    {
        let r = Keyspace { tables: Vec::new() };
        proof {
            assert(r@.tables =~= Map::<Seq<u8>, TableModel>::empty());
        }
        r
    }
}

// ---------------------------------------------------------------------------
// The corestore facade
// ---------------------------------------------------------------------------

/// The current selection of `m`, when both halves are set.
pub open spec fn cur_entity(m: StoreModel) -> Option<(Seq<u8>, Seq<u8>)> {
    match (m.cur_ks, m.cur_tbl) {
        (Some(k), Some(t)) => Some((k, t)),
        _ => None,
    }
}

/// The currently selected table of `m`, if the selection resolves.
pub open spec fn cur_table(m: StoreModel) -> Option<TableModel> {
    match cur_entity(m) {
        Some((k, t)) => if m.keyspaces.contains_key(k) && m.keyspaces[k].tables.contains_key(t) {
            Some(m.keyspaces[k].tables[t])
        } else {
            None
        },
        None => None,
    }
}

/// `m` with its currently selected table replaced by `t` (identity when the
/// selection does not resolve).
pub open spec fn with_cur_table(m: StoreModel, t: TableModel) -> StoreModel {
    match cur_entity(m) {
        Some((k, tb)) => if m.keyspaces.contains_key(k) && m.keyspaces[k].tables.contains_key(tb) {
            StoreModel {
                keyspaces: m.keyspaces.insert(
                    k,
                    KeyspaceModel { tables: m.keyspaces[k].tables.insert(tb, t) },
                ),
                cur_ks: m.cur_ks,
                cur_tbl: m.cur_tbl,
            }
        } else {
            m
        },
        None => m,
    }
}

/// The list containers of the currently selected table.
pub open spec fn cur_lists(m: StoreModel) -> Map<Seq<u8>, Seq<Seq<u8>>> {
    match cur_table(m) {
        Some(t) => t.lists,
        None => Map::empty(),
    }
}

/// `m` with the currently selected table's list containers replaced.
pub open spec fn with_cur_lists(m: StoreModel, lists: Map<Seq<u8>, Seq<Seq<u8>>>) -> StoreModel {
    match cur_table(m) {
        Some(t) => with_cur_table(
            m,
            TableModel {
                volatile: t.volatile,
                is_list: t.is_list,
                k_enc: t.k_enc,
                v_enc: t.v_enc,
                kv: t.kv,
                lists,
            },
        ),
        None => m,
    }
}

/// The blob bindings of the currently selected table.
pub open spec fn cur_kv(m: StoreModel) -> Map<Seq<u8>, Seq<u8>> {
    match cur_table(m) {
        Some(t) => t.kv,
        None => Map::empty(),
    }
}

/// `m` with the currently selected table's blob bindings replaced.
pub open spec fn with_cur_kv(m: StoreModel, kv: Map<Seq<u8>, Seq<u8>>) -> StoreModel {
    match cur_table(m) {
        Some(t) => with_cur_table(
            m,
            TableModel {
                volatile: t.volatile,
                is_list: t.is_list,
                k_enc: t.k_enc,
                v_enc: t.v_enc,
                kv,
                lists: t.lists,
            },
        ),
        None => m,
    }
}

/// Is the currently selected table a list table?
pub open spec fn cur_is_list(m: StoreModel) -> bool {
    match cur_table(m) {
        Some(t) => t.is_list,
        None => false,
    }
}

/// Is the currently selected table a blob table?
pub open spec fn cur_is_blob(m: StoreModel) -> bool {
    match cur_table(m) {
        Some(t) => !t.is_list,
        None => false,
    }
}

/// Replacing the current table's lists keeps the selection resolving, to a
/// table that differs only in its lists.
pub proof fn lemma_with_cur_lists_resolves(m: StoreModel, lists: Map<Seq<u8>, Seq<Seq<u8>>>)
    requires
        cur_table(m) is Some,
    ensures
        ({
            let t = cur_table(m)->0;
            cur_table(with_cur_lists(m, lists)) == Some(
                TableModel {
                    volatile: t.volatile,
                    is_list: t.is_list,
                    k_enc: t.k_enc,
                    v_enc: t.v_enc,
                    kv: t.kv,
                    lists,
                },
            )
        }),
{
}

/// Replacing the current table's blob bindings keeps the selection
/// resolving, to a table that differs only in its bindings.
pub proof fn lemma_with_cur_kv_resolves(m: StoreModel, kv: Map<Seq<u8>, Seq<u8>>)
    requires
        cur_table(m) is Some,
    ensures
        ({
            let t = cur_table(m)->0;
            cur_table(with_cur_kv(m, kv)) == Some(
                TableModel {
                    volatile: t.volatile,
                    is_list: t.is_list,
                    k_enc: t.k_enc,
                    v_enc: t.v_enc,
                    kv,
                    lists: t.lists,
                },
            )
        }),
{
}

/// The top-level facade handlers work through: the keyspace registry plus
/// this connection's current selection.
pub struct Corestore {
    keyspaces: Vec<(Vec<u8>, Keyspace)>,
    cur_ks: Option<Vec<u8>>,
    cur_tbl: Option<Vec<u8>>,
}

impl Corestore {
    pub closed spec fn wf(&self) -> bool {
        &&& unique_keys(self.keyspaces@)
        &&& forall|i: int| 0 <= i < self.keyspaces@.len() ==> (#[trigger] self.keyspaces@[i]).1.wf()
    }

    pub closed spec fn view(&self) -> StoreModel {
        StoreModel {
            keyspaces: as_map(self.keyspaces@).map_values(|k: Keyspace| k.view()),
            cur_ks: match self.cur_ks {
                Some(v) => Some(v@),
                None => None,
            },
            cur_tbl: match self.cur_tbl {
                Some(v) => Some(v@),
                None => None,
            },
        }
    }

    /// Boot state: one keyspace `default` holding one binary/binary blob
    /// table `default`, which is selected.
    pub fn new() -> (r: Corestore)
        ensures
            r.wf(),
            r@.cur_ks == Some(crate::responses::ascii_seq("default"@)),
            r@.cur_tbl == Some(crate::responses::ascii_seq("default"@)),
            ({
                let dflt = crate::responses::ascii_seq("default"@);
                &&& r@.keyspaces.dom() =~= Set::<Seq<u8>>::empty().insert(dflt)
                &&& r@.keyspaces[dflt].tables.dom() =~= Set::<Seq<u8>>::empty().insert(dflt)
                &&& r@.keyspaces[dflt].tables[dflt] == (TableModel {
                    volatile: false,
                    is_list: false,
                    k_enc: false,
                    v_enc: false,
                    kv: Map::<Seq<u8>, Seq<u8>>::empty(),
                    lists: Map::<Seq<u8>, Seq<Seq<u8>>>::empty(),
                })
            }),
    {
        proof {
            reveal_strlit("default");
        }
        let name = ascii_bytes("default");
        let name2 = ascii_bytes("default");
        let blob = KVEBlob::new(false, false);
        let table = Table { volatile: false, data: TableData::Blob(blob) };
        let mut tables: Vec<(Vec<u8>, Table)> = Vec::new();
        tables.push((name, table));
        let ks = Keyspace { tables };
        let mut keyspaces: Vec<(Vec<u8>, Keyspace)> = Vec::new();
        let name3 = ascii_bytes("default");
        let name4 = ascii_bytes("default");
        keyspaces.push((name2, ks));
        let r = Corestore {
            keyspaces,
            cur_ks: Some(name3),
            cur_tbl: Some(name4),
        };
        proof {
            let dflt = crate::responses::ascii_seq("default"@);
            let tseq = r.keyspaces@[0].1.tables@;
            assert(tseq.drop_last() =~= Seq::<(Vec<u8>, Table)>::empty());
            assert(as_map(tseq.drop_last()) =~= Map::<Seq<u8>, Table>::empty());
            assert(as_map(tseq) =~= Map::<Seq<u8>, Table>::empty().insert(dflt, tseq[0].1));
            assert(r.keyspaces@[0].1@.tables.dom() =~= Set::<Seq<u8>>::empty().insert(dflt));
            let kseq = r.keyspaces@;
            assert(kseq.drop_last() =~= Seq::<(Vec<u8>, Keyspace)>::empty());
            assert(as_map(kseq.drop_last()) =~= Map::<Seq<u8>, Keyspace>::empty());
            assert(as_map(kseq) =~= Map::<Seq<u8>, Keyspace>::empty().insert(dflt, kseq[0].1));
            assert(r@.keyspaces.dom() =~= Set::<Seq<u8>>::empty().insert(dflt));
            assert(r@.keyspaces[dflt] == kseq[0].1@);
            assert(r@.keyspaces[dflt].tables.dom() =~= Set::<Seq<u8>>::empty().insert(dflt));
            assert(r@.keyspaces[dflt].tables[dflt] == tseq[0].1@);
        }
        r
    }

    /// Select a keyspace and a table inside it; fails without touching the
    /// selection when either does not exist.
    pub fn set_current(&mut self, ks: &[u8], tbl: &[u8]) -> (r: Result<(), ()>)
        requires
            old(self).wf(),
        ensures
            final(self).wf(),
            match r {
                Ok(()) => {
                    &&& old(self)@.keyspaces.contains_key(ks@)
                    &&& old(self)@.keyspaces[ks@].tables.contains_key(tbl@)
                    &&& final(self)@ == (StoreModel {
                        keyspaces: old(self)@.keyspaces,
                        cur_ks: Some(ks@),
                        cur_tbl: Some(tbl@),
                    })
                },
                Err(()) => {
                    &&& !(old(self)@.keyspaces.contains_key(ks@)
                        && old(self)@.keyspaces[ks@].tables.contains_key(tbl@))
                    &&& final(self)@ == old(self)@
                },
            },
    {
        let i = match find_idx(&self.keyspaces, ks) {
            Some(i) => i,
            None => {
                proof {
                    lemma_as_map_contains(self.keyspaces@, ks@);
                }
                return Err(());
            },
        };
        proof {
            lemma_as_map_index(self.keyspaces@, i as int);
        }
        let j = match find_idx(&self.keyspaces[i].1.tables, tbl) {
            Some(j) => j,
            None => {
                proof {
                    lemma_as_map_contains(self.keyspaces@[i as int].1.tables@, tbl@);
                }
                return Err(());
            },
        };
        proof {
            lemma_as_map_index(self.keyspaces@[i as int].1.tables@, j as int);
        }
        self.cur_ks = Some(vstd::slice::slice_to_vec(ks));
        self.cur_tbl = Some(vstd::slice::slice_to_vec(tbl));
        Ok(())
    }

    /// Resolve the current selection to concrete indices.
    fn locate_current(&self) -> (r: Result<(usize, usize), TableError>)
        requires
            self.wf(),
        ensures
            match r {
                Ok((i, j)) => {
                    &&& i < self.keyspaces@.len()
                    &&& j < self.keyspaces@[i as int].1.tables@.len()
                    &&& self@.cur_ks == Some(self.keyspaces@[i as int].0@)
                    &&& self@.cur_tbl == Some(self.keyspaces@[i as int].1.tables@[j as int].0@)
                    &&& cur_table(self@) == Some(self.keyspaces@[i as int].1.tables@[j as int].1@)
                },
                Err(e) => {
                    &&& (e == TableError::DefaultContainerUnset) == (cur_entity(self@) is None)
                    &&& (e == TableError::ContainerNotFound) == (cur_entity(self@) is Some
                        && cur_table(self@) is None)
                    &&& e != TableError::WrongModel
                },
            },
    {
        let ks = match &self.cur_ks {
            Some(k) => k,
            None => {
                return Err(TableError::DefaultContainerUnset);
            },
        };
        let tb = match &self.cur_tbl {
            Some(t) => t,
            None => {
                return Err(TableError::DefaultContainerUnset);
            },
        };
        let i = match find_idx(&self.keyspaces, ks.as_slice()) {
            Some(i) => i,
            None => {
                proof {
                    lemma_as_map_contains(self.keyspaces@, ks@);
                }
                return Err(TableError::ContainerNotFound);
            },
        };
        proof {
            lemma_as_map_index(self.keyspaces@, i as int);
        }
        let j = match find_idx(&self.keyspaces[i].1.tables, tb.as_slice()) {
            Some(j) => j,
            None => {
                proof {
                    lemma_as_map_contains(self.keyspaces@[i as int].1.tables@, tb@);
                }
                return Err(TableError::ContainerNotFound);
            },
        };
        proof {
            lemma_as_map_index(self.keyspaces@[i as int].1.tables@, j as int);
        }
        Ok((i, j))
    }

    /// After replacing the keyspace at entry `i` in place (same name), the
    /// store model is the old model with that keyspace re-bound.
    proof fn lemma_ks_updated(pre: &Corestore, post: &Corestore, i: int)
        requires
            pre.wf(),
            0 <= i < pre.keyspaces@.len(),
            post.keyspaces@.len() == pre.keyspaces@.len(),
            forall|x: int|
                0 <= x < pre.keyspaces@.len() && x != i ==> post.keyspaces@[x] == pre.keyspaces@[x],
            post.keyspaces@[i].0 == pre.keyspaces@[i].0,
            post.keyspaces@[i].1.wf(),
            post.cur_ks == pre.cur_ks,
            post.cur_tbl == pre.cur_tbl,
        ensures
            post.wf(),
            post@ == (StoreModel {
                keyspaces: pre@.keyspaces.insert(pre.keyspaces@[i].0@, post.keyspaces@[i].1@),
                cur_ks: pre@.cur_ks,
                cur_tbl: pre@.cur_tbl,
            }),
    {
        lemma_as_map_update(pre.keyspaces@, i, post.keyspaces@[i].1);
        assert(post.keyspaces@ =~= pre.keyspaces@.update(
            i,
            (pre.keyspaces@[i].0, post.keyspaces@[i].1),
        ));
        assert(post@.keyspaces =~= pre@.keyspaces.insert(
            pre.keyspaces@[i].0@,
            post.keyspaces@[i].1@,
        ));
        assert(post@ =~= (StoreModel {
            keyspaces: pre@.keyspaces.insert(pre.keyspaces@[i].0@, post.keyspaces@[i].1@),
            cur_ks: pre@.cur_ks,
            cur_tbl: pre@.cur_tbl,
        }));
    }

    /// After mutating the currently selected table in place (same name, new
    /// contents), the store model is the old model with that one table
    /// re-bound.
    proof fn lemma_cur_table_updated(pre: &Corestore, post: &Corestore, i: int, j: int)
        requires
            pre.wf(),
            0 <= i < pre.keyspaces@.len(),
            0 <= j < pre.keyspaces@[i].1.tables@.len(),
            pre@.cur_ks == Some(pre.keyspaces@[i].0@),
            pre@.cur_tbl == Some(pre.keyspaces@[i].1.tables@[j].0@),
            post.keyspaces@.len() == pre.keyspaces@.len(),
            forall|x: int|
                0 <= x < pre.keyspaces@.len() && x != i ==> post.keyspaces@[x] == pre.keyspaces@[x],
            post.keyspaces@[i].0 == pre.keyspaces@[i].0,
            post.keyspaces@[i].1.tables@.len() == pre.keyspaces@[i].1.tables@.len(),
            forall|y: int|
                0 <= y < pre.keyspaces@[i].1.tables@.len() && y != j
                    ==> post.keyspaces@[i].1.tables@[y] == pre.keyspaces@[i].1.tables@[y],
            post.keyspaces@[i].1.tables@[j].0 == pre.keyspaces@[i].1.tables@[j].0,
            post.keyspaces@[i].1.tables@[j].1.wf(),
            post.cur_ks == pre.cur_ks,
            post.cur_tbl == pre.cur_tbl,
        ensures
            post.wf(),
            cur_table(pre@) == Some(pre.keyspaces@[i].1.tables@[j].1@),
            post@ == with_cur_table(pre@, post.keyspaces@[i].1.tables@[j].1@),
    {
        let kname = pre.keyspaces@[i].0@;
        let tname = pre.keyspaces@[i].1.tables@[j].0@;
        let newt = post.keyspaces@[i].1.tables@[j].1;
        lemma_as_map_index(pre.keyspaces@, i);
        assert(pre.keyspaces@[i].1.wf());
        lemma_as_map_index(pre.keyspaces@[i].1.tables@, j);
        assert(pre@.keyspaces.contains_key(kname));
        assert(pre@.keyspaces[kname] == pre.keyspaces@[i].1@);
        assert(pre@.keyspaces[kname].tables.contains_key(tname));
        assert(pre@.keyspaces[kname].tables[tname] == pre.keyspaces@[i].1.tables@[j].1@);
        // the inner (table) level
        lemma_as_map_update(pre.keyspaces@[i].1.tables@, j, newt);
        assert(post.keyspaces@[i].1.tables@ =~= pre.keyspaces@[i].1.tables@.update(
            j,
            (pre.keyspaces@[i].1.tables@[j].0, newt),
        ));
        assert(post.keyspaces@[i].1.wf());
        assert(post.keyspaces@[i].1@.tables =~= pre.keyspaces@[i].1@.tables.insert(tname, newt@));
        // the outer (keyspace) level
        Self::lemma_ks_updated(pre, post, i);
        assert(post@ =~= with_cur_table(pre@, newt@));
    }

    /// Create a fresh keyspace under `id`; duplicates are refused, never
    /// overwritten.
    pub fn create_keyspace(&mut self, id: Vec<u8>) -> (r: Result<(), DdlError>)
        requires
            old(self).wf(),
        ensures
            final(self).wf(),
            match r {
                Ok(()) => {
                    &&& !old(self)@.keyspaces.contains_key(id@)
                    &&& final(self)@ == (StoreModel {
                        keyspaces: old(self)@.keyspaces.insert(
                            id@,
                            KeyspaceModel { tables: Map::empty() },
                        ),
                        cur_ks: old(self)@.cur_ks,
                        cur_tbl: old(self)@.cur_tbl,
                    })
                },
                Err(e) => {
                    &&& e == DdlError::AlreadyExists
                    &&& old(self)@.keyspaces.contains_key(id@)
                    &&& final(self)@ == old(self)@
                },
            },
    {
        proof {
            lemma_as_map_contains(self.keyspaces@, id@);
        }
        match find_idx(&self.keyspaces, id.as_slice()) {
            Some(_) => Err(DdlError::AlreadyExists),
            None => {
                let ghost ks0 = self.keyspaces@;
                let ks = Keyspace::empty();
                proof {
                    lemma_as_map_push(ks0, id, ks);
                }
                self.keyspaces.push((id, ks));
                proof {
                    assert(unique_keys(self.keyspaces@)) by {
                        lemma_as_map_contains(ks0, self.keyspaces@.last().0@);
                        assert(forall|x: int|
                            0 <= x < ks0.len() ==> #[trigger] self.keyspaces@[x] == ks0[x]);
                    }
                    assert(final(self)@ =~= (StoreModel {
                        keyspaces: old(self)@.keyspaces.insert(
                            self.keyspaces@.last().0@,
                            KeyspaceModel { tables: Map::empty() },
                        ),
                        cur_ks: old(self)@.cur_ks,
                        cur_tbl: old(self)@.cur_tbl,
                    }));
                }
                Ok(())
            },
        }
    }

    /// Create a table under `ks` (or the current keyspace) with the given
    /// model code; duplicates are refused, never overwritten.
    pub fn create_table(
        &mut self,
        ks: Option<&[u8]>,
        tbl: Vec<u8>,
        model_code: u8,
        volatile: bool,
    ) -> (r: Result<(), DdlError>)
        requires
            old(self).wf(),
            model_code < 8,
        ensures
            final(self).wf(),
            ({
                let tks = match ks {
                    Some(k) => Some(k@),
                    None => old(self)@.cur_ks,
                };
                match r {
                    Ok(()) => {
                        &&& tks is Some
                        &&& old(self)@.keyspaces.contains_key(tks->0)
                        &&& !old(self)@.keyspaces[tks->0].tables.contains_key(tbl@)
                        &&& final(self)@ == (StoreModel {
                            keyspaces: old(self)@.keyspaces.insert(
                                tks->0,
                                KeyspaceModel {
                                    tables: old(self)@.keyspaces[tks->0].tables.insert(
                                        tbl@,
                                        model_of_code(model_code as int, volatile),
                                    ),
                                },
                            ),
                            cur_ks: old(self)@.cur_ks,
                            cur_tbl: old(self)@.cur_tbl,
                        })
                    },
                    Err(DdlError::DefaultContainerUnset) => tks is None && final(self)@ == old(
                        self,
                    )@,
                    Err(DdlError::ContainerNotFound) => tks is Some && !old(
                        self,
                    )@.keyspaces.contains_key(tks->0) && final(self)@ == old(self)@,
                    Err(DdlError::AlreadyExists) => tks is Some && old(
                        self,
                    )@.keyspaces.contains_key(tks->0) && old(self)@.keyspaces[tks->0].tables.contains_key(
                        tbl@,
                    ) && final(self)@ == old(self)@,
                    Err(DdlError::NotEmpty) => false,
                }
            }),
    {
        let i: usize = {
            let ksl: &[u8] = match ks {
                Some(k) => k,
                None => match &self.cur_ks {
                    Some(v) => v.as_slice(),
                    None => {
                        return Err(DdlError::DefaultContainerUnset);
                    },
                },
            };
            match find_idx(&self.keyspaces, ksl) {
                Some(i) => i,
                None => {
                    proof {
                        lemma_as_map_contains(self.keyspaces@, ksl@);
                    }
                    return Err(DdlError::ContainerNotFound);
                },
            }
        };
        proof {
            lemma_as_map_index(self.keyspaces@, i as int);
            lemma_as_map_contains(self.keyspaces@[i as int].1.tables@, tbl@);
        }
        if find_idx(&self.keyspaces[i].1.tables, tbl.as_slice()).is_some() {
            return Err(DdlError::AlreadyExists);
        }
        let t = match Table::from_model_code(model_code, volatile) {
            Some(t) => t,
            None => {
                proof {
                    assert(false);
                }
                return Err(DdlError::ContainerNotFound);
            },
        };
        let ghost tb0 = self.keyspaces@[i as int].1.tables@;
        proof {
            lemma_as_map_push(tb0, tbl, t);
        }
        let ks_tables: &mut Vec<(Vec<u8>, Table)> = &mut self.keyspaces[i].1.tables;
        ks_tables.push((tbl, t));
        proof {
            let tbnew = self.keyspaces@[i as int].1.tables@;
            assert(unique_keys(tbnew)) by {
                lemma_as_map_contains(tb0, tbnew.last().0@);
                assert(forall|x: int| 0 <= x < tb0.len() ==> #[trigger] tbnew[x] == tb0[x]);
            }
            assert(self.keyspaces@[i as int].1.wf()) by {
                assert(forall|x: int| 0 <= x < tb0.len() ==> #[trigger] tbnew[x] == tb0[x]);
                assert(tbnew.last().1.wf());
            }
            Self::lemma_ks_updated(old(self), self, i as int);
            assert(self.keyspaces@[i as int].1@.tables =~= old(self)@.keyspaces[old(
                self,
            ).keyspaces@[i as int].0@].tables.insert(
                tbnew.last().0@,
                model_of_code(model_code as int, volatile),
            ));
            assert(final(self)@ =~= (StoreModel {
                keyspaces: old(self)@.keyspaces.insert(
                    old(self).keyspaces@[i as int].0@,
                    KeyspaceModel {
                        tables: old(self)@.keyspaces[old(self).keyspaces@[i as int].0@].tables.insert(
                            tbnew.last().0@,
                            model_of_code(model_code as int, volatile),
                        ),
                    },
                ),
                cur_ks: old(self)@.cur_ks,
                cur_tbl: old(self)@.cur_tbl,
            }));
        }
        Ok(())
    }

    /// Drop a table under `ks` (or the current keyspace).
    pub fn drop_table(&mut self, ks: Option<&[u8]>, tbl: &[u8]) -> (r: Result<(), DdlError>)
        requires
            old(self).wf(),
        ensures
            final(self).wf(),
            ({
                let tks = match ks {
                    Some(k) => Some(k@),
                    None => old(self)@.cur_ks,
                };
                match r {
                    Ok(()) => {
                        &&& tks is Some
                        &&& old(self)@.keyspaces.contains_key(tks->0)
                        &&& old(self)@.keyspaces[tks->0].tables.contains_key(tbl@)
                        &&& final(self)@ == (StoreModel {
                            keyspaces: old(self)@.keyspaces.insert(
                                tks->0,
                                KeyspaceModel {
                                    tables: old(self)@.keyspaces[tks->0].tables.remove(tbl@),
                                },
                            ),
                            cur_ks: old(self)@.cur_ks,
                            cur_tbl: old(self)@.cur_tbl,
                        })
                    },
                    Err(DdlError::DefaultContainerUnset) => tks is None && final(self)@ == old(
                        self,
                    )@,
                    Err(DdlError::ContainerNotFound) => tks is Some && !(old(
                        self,
                    )@.keyspaces.contains_key(tks->0) && old(self)@.keyspaces[tks->0].tables.contains_key(
                        tbl@,
                    )) && final(self)@ == old(self)@,
                    _ => false,
                }
            }),
    {
        let i: usize = {
            let ksl: &[u8] = match ks {
                Some(k) => k,
                None => match &self.cur_ks {
                    Some(v) => v.as_slice(),
                    None => {
                        return Err(DdlError::DefaultContainerUnset);
                    },
                },
            };
            match find_idx(&self.keyspaces, ksl) {
                Some(i) => i,
                None => {
                    proof {
                        lemma_as_map_contains(self.keyspaces@, ksl@);
                    }
                    return Err(DdlError::ContainerNotFound);
                },
            }
        };
        proof {
            lemma_as_map_index(self.keyspaces@, i as int);
        }
        let j = match find_idx(&self.keyspaces[i].1.tables, tbl) {
            Some(j) => j,
            None => {
                proof {
                    lemma_as_map_contains(self.keyspaces@[i as int].1.tables@, tbl@);
                }
                return Err(DdlError::ContainerNotFound);
            },
        };
        let ghost tb0 = self.keyspaces@[i as int].1.tables@;
        proof {
            lemma_as_map_index(tb0, j as int);
            lemma_as_map_remove(tb0, j as int);
        }
        let ks_tables: &mut Vec<(Vec<u8>, Table)> = &mut self.keyspaces[i].1.tables;
        let _ = ks_tables.remove(j);
        proof {
            let tbnew = self.keyspaces@[i as int].1.tables@;
            assert(tbnew =~= tb0.remove(j as int));
            assert(self.keyspaces@[i as int].1.wf()) by {
                assert forall|x: int| 0 <= x < tbnew.len() implies (#[trigger] tbnew[x]).1.wf() by {
                    if x < j {
                        assert(tbnew[x] == tb0[x]);
                    } else {
                        assert(tbnew[x] == tb0[x + 1]);
                    }
                }
            }
            Self::lemma_ks_updated(old(self), self, i as int);
            assert(self.keyspaces@[i as int].1@.tables =~= old(self)@.keyspaces[old(
                self,
            ).keyspaces@[i as int].0@].tables.remove(tbl@));
            assert(final(self)@ =~= (StoreModel {
                keyspaces: old(self)@.keyspaces.insert(
                    old(self).keyspaces@[i as int].0@,
                    KeyspaceModel {
                        tables: old(self)@.keyspaces[old(
                            self,
                        ).keyspaces@[i as int].0@].tables.remove(tbl@),
                    },
                ),
                cur_ks: old(self)@.cur_ks,
                cur_tbl: old(self)@.cur_tbl,
            }));
        }
        Ok(())
    }

    /// Drop the named keyspace only if it holds no tables.
    pub fn drop_keyspace(&mut self, id: &[u8]) -> (r: Result<(), DdlError>)
        requires
            old(self).wf(),
        ensures
            final(self).wf(),
            match r {
                Ok(()) => {
                    &&& old(self)@.keyspaces.contains_key(id@)
                    &&& old(self)@.keyspaces[id@].tables == Map::<Seq<u8>, TableModel>::empty()
                    &&& final(self)@ == (StoreModel {
                        keyspaces: old(self)@.keyspaces.remove(id@),
                        cur_ks: old(self)@.cur_ks,
                        cur_tbl: old(self)@.cur_tbl,
                    })
                },
                Err(DdlError::ContainerNotFound) => !old(self)@.keyspaces.contains_key(id@)
                    && final(self)@ == old(self)@,
                Err(DdlError::NotEmpty) => old(self)@.keyspaces.contains_key(id@) && old(
                    self,
                )@.keyspaces[id@].tables != Map::<Seq<u8>, TableModel>::empty() && final(self)@
                    == old(self)@,
                _ => false,
            },
    {
        let i = match find_idx(&self.keyspaces, id) {
            Some(i) => i,
            None => {
                proof {
                    lemma_as_map_contains(self.keyspaces@, id@);
                }
                return Err(DdlError::ContainerNotFound);
            },
        };
        proof {
            lemma_as_map_index(self.keyspaces@, i as int);
        }
        if self.keyspaces[i].1.tables.len() > 0 {
            proof {
                let tb = self.keyspaces@[i as int].1.tables@;
                lemma_as_map_index(tb, 0);
                assert(self@.keyspaces[id@].tables.contains_key(tb[0].0@));
                assert(self@.keyspaces[id@].tables != Map::<Seq<u8>, TableModel>::empty());
            }
            return Err(DdlError::NotEmpty);
        }
        proof {
            let tb = self.keyspaces@[i as int].1.tables@;
            assert(as_map(tb) =~= Map::<Seq<u8>, Table>::empty());
            assert(self@.keyspaces[id@].tables =~= Map::<Seq<u8>, TableModel>::empty());
        }
        self.remove_keyspace_at(i);
        Ok(())
    }

    /// Drop the named keyspace even if it still holds tables.
    pub fn force_drop_keyspace(&mut self, id: &[u8]) -> (r: Result<(), DdlError>)
        requires
            old(self).wf(),
        ensures
            final(self).wf(),
            match r {
                Ok(()) => {
                    &&& old(self)@.keyspaces.contains_key(id@)
                    &&& final(self)@ == (StoreModel {
                        keyspaces: old(self)@.keyspaces.remove(id@),
                        cur_ks: old(self)@.cur_ks,
                        cur_tbl: old(self)@.cur_tbl,
                    })
                },
                Err(DdlError::ContainerNotFound) => !old(self)@.keyspaces.contains_key(id@)
                    && final(self)@ == old(self)@,
                _ => false,
            },
    {
        let i = match find_idx(&self.keyspaces, id) {
            Some(i) => i,
            None => {
                proof {
                    lemma_as_map_contains(self.keyspaces@, id@);
                }
                return Err(DdlError::ContainerNotFound);
            },
        };
        proof {
            lemma_as_map_index(self.keyspaces@, i as int);
        }
        self.remove_keyspace_at(i);
        Ok(())
    }

    /// What `get_table_with` resolves: the kind of the currently selected
    /// table, or why it cannot be had.
    pub fn current_table_kind(&self) -> (r: Result<bool, TableError>)
        requires
            self.wf(),
        ensures
            match r {
                Ok(is_list) => cur_table(self@) is Some && is_list == cur_table(self@)->0.is_list,
                Err(e) => {
                    &&& cur_table(self@) is None
                    &&& (e == TableError::DefaultContainerUnset) == (cur_entity(self@) is None)
                    &&& (e == TableError::ContainerNotFound) == (cur_entity(self@) is Some)
                    &&& e != TableError::WrongModel
                },
            },
    {
        let (i, j) = match self.locate_current() {
            Ok(p) => p,
            Err(e) => {
                return Err(e);
            },
        };
        match &self.keyspaces[i].1.tables[j].1.data {
            TableData::List(_) => Ok(true),
            TableData::Blob(_) => Ok(false),
        }
    }

    /// Key and value encoding flags of the currently selected list table.
    pub fn cur_list_encodings(&self) -> (r: (bool, bool))
        requires
            self.wf(),
            cur_is_list(self@),
        ensures
            r.0 == cur_table(self@)->0.k_enc,
            r.1 == cur_table(self@)->0.v_enc,
    {
        let (i, j) = match self.locate_current() {
            Ok(p) => p,
            Err(_) => {
                proof {
                    assert(false);
                }
                return (false, false);
            },
        };
        match &self.keyspaces[i].1.tables[j].1.data {
            TableData::List(lm) => (lm.is_id_encoded(), lm.is_payload_encoded()),
            TableData::Blob(_) => {
                proof {
                    assert(false);
                }
                (false, false)
            },
        }
    }

    /// Does the currently selected list table hold a list of this name?
    pub fn cur_list_has(&self, name: &[u8]) -> (r: bool)
        requires
            self.wf(),
            cur_is_list(self@),
        ensures
            r == cur_lists(self@).contains_key(name@),
    {
        let (i, j) = match self.locate_current() {
            Ok(p) => p,
            Err(_) => {
                proof {
                    assert(false);
                }
                return false;
            },
        };
        proof {
            assert(self.keyspaces@[i as int].1.wf());
        }
        match &self.keyspaces[i].1.tables[j].1.data {
            TableData::List(lm) => lm.has_list(name),
            TableData::Blob(_) => {
                proof {
                    assert(false);
                }
                false
            },
        }
    }

    /// Length of the named list in the currently selected list table.
    pub fn cur_list_len(&self, name: &[u8]) -> (r: Option<usize>)
        requires
            self.wf(),
            cur_is_list(self@),
        ensures
            match r {
                Some(n) => cur_lists(self@).contains_key(name@) && n == cur_lists(
                    self@,
                )[name@].len(),
                None => !cur_lists(self@).contains_key(name@),
            },
    {
        let (i, j) = match self.locate_current() {
            Ok(p) => p,
            Err(_) => {
                proof {
                    assert(false);
                }
                return None;
            },
        };
        proof {
            assert(self.keyspaces@[i as int].1.wf());
        }
        match &self.keyspaces[i].1.tables[j].1.data {
            TableData::List(lm) => lm.len(name),
            TableData::Blob(_) => {
                proof {
                    assert(false);
                }
                None
            },
        }
    }

    /// A copy of the named list in the currently selected list table.
    pub fn cur_list_snapshot(&self, name: &[u8]) -> (r: Option<Vec<Vec<u8>>>)
        requires
            self.wf(),
            cur_is_list(self@),
        ensures
            match r {
                Some(v) => cur_lists(self@).contains_key(name@) && v@.len() == cur_lists(
                    self@,
                )[name@].len() && (forall|x: int|
                    0 <= x < v@.len() ==> (#[trigger] v@[x])@ == cur_lists(self@)[name@][x]),
                None => !cur_lists(self@).contains_key(name@),
            },
    {
        let (i, j) = match self.locate_current() {
            Ok(p) => p,
            Err(_) => {
                proof {
                    assert(false);
                }
                return None;
            },
        };
        proof {
            assert(self.keyspaces@[i as int].1.wf());
        }
        match &self.keyspaces[i].1.tables[j].1.data {
            TableData::List(lm) => lm.list_snapshot(name),
            TableData::Blob(_) => {
                proof {
                    assert(false);
                }
                None
            },
        }
    }

    /// Create an empty list under `name` in the currently selected list
    /// table: `None` when the name fails the key encoding, otherwise
    /// `Some(created)`.
    pub fn cur_list_add(&mut self, name: Vec<u8>) -> (r: Option<bool>)
        requires
            old(self).wf(),
            cur_is_list(old(self)@),
        ensures
            final(self).wf(),
            match r {
                None => !spec_encoding_ok(cur_table(old(self)@)->0.k_enc, name@) && final(self)@
                    == old(self)@,
                Some(created) => spec_encoding_ok(cur_table(old(self)@)->0.k_enc, name@) && (
                if created {
                    &&& !cur_lists(old(self)@).contains_key(name@)
                    &&& final(self)@ == with_cur_lists(
                        old(self)@,
                        cur_lists(old(self)@).insert(name@, Seq::<Seq<u8>>::empty()),
                    )
                } else {
                    &&& cur_lists(old(self)@).contains_key(name@)
                    &&& final(self)@ == old(self)@
                }),
            },
    {
        let (i, j) = match self.locate_current() {
            Ok(p) => p,
            Err(_) => {
                proof {
                    assert(false);
                }
                return None;
            },
        };
        proof {
            assert(self.keyspaces@[i as int].1.wf());
        }
        let ghost t0 = self.keyspaces@[i as int].1.tables@[j as int].1;
        let t: &mut Table = &mut self.keyspaces[i].1.tables[j].1;
        let r = match &mut t.data {
            TableData::List(lm) => lm.add_list(name),
            TableData::Blob(_) => {
                proof {
                    assert(false);
                }
                None
            },
        };
        proof {
            Self::lemma_cur_table_updated(old(self), self, i as int, j as int);
            match r {
                None => {
                    assert(final(self)@ =~~= old(self)@);
                },
                Some(created) => {
                    if created {
                        assert(final(self)@ =~= with_cur_lists(
                            old(self)@,
                            cur_lists(old(self)@).insert(name@, Seq::<Seq<u8>>::empty()),
                        ));
                    } else {
                        assert(final(self)@ =~~= old(self)@);
                    }
                },
            }
        }
        r
    }

    /// Truncate the named list in the currently selected list table.
    pub fn cur_list_clear(&mut self, name: &[u8])
        requires
            old(self).wf(),
            cur_is_list(old(self)@),
            cur_lists(old(self)@).contains_key(name@),
        ensures
            final(self).wf(),
            final(self)@ == with_cur_lists(
                old(self)@,
                cur_lists(old(self)@).insert(name@, Seq::<Seq<u8>>::empty()),
            ),
    {
        let (i, j) = match self.locate_current() {
            Ok(p) => p,
            Err(_) => {
                proof {
                    assert(false);
                }
                return ;
            },
        };
        proof {
            assert(self.keyspaces@[i as int].1.wf());
        }
        let t: &mut Table = &mut self.keyspaces[i].1.tables[j].1;
        match &mut t.data {
            TableData::List(lm) => lm.clear_list(name),
            TableData::Blob(_) => {
                proof {
                    assert(false);
                }
            },
        }
        proof {
            Self::lemma_cur_table_updated(old(self), self, i as int, j as int);
            assert(final(self)@ =~= with_cur_lists(
                old(self)@,
                cur_lists(old(self)@).insert(name@, Seq::<Seq<u8>>::empty()),
            ));
        }
    }

    /// Append `values` to the named list, in order, atomically.
    pub fn cur_list_push(&mut self, name: &[u8], values: Vec<Vec<u8>>)
        requires
            old(self).wf(),
            cur_is_list(old(self)@),
            cur_lists(old(self)@).contains_key(name@),
        ensures
            final(self).wf(),
            final(self)@ == with_cur_lists(
                old(self)@,
                cur_lists(old(self)@).insert(
                    name@,
                    cur_lists(old(self)@)[name@] + values@.map_values(|v: Vec<u8>| v@),
                ),
            ),
    {
        let (i, j) = match self.locate_current() {
            Ok(p) => p,
            Err(_) => {
                proof {
                    assert(false);
                }
                return ;
            },
        };
        proof {
            assert(self.keyspaces@[i as int].1.wf());
        }
        let t: &mut Table = &mut self.keyspaces[i].1.tables[j].1;
        match &mut t.data {
            TableData::List(lm) => lm.push_elems(name, values),
            TableData::Blob(_) => {
                proof {
                    assert(false);
                }
            },
        }
        proof {
            Self::lemma_cur_table_updated(old(self), self, i as int, j as int);
            assert(final(self)@ =~= with_cur_lists(
                old(self)@,
                cur_lists(old(self)@).insert(
                    name@,
                    cur_lists(old(self)@)[name@] + values@.map_values(|v: Vec<u8>| v@),
                ),
            ));
        }
    }

    /// Insert `value` at `idx` of the named list when `idx` is in bounds;
    /// report `false` (and change nothing) otherwise.
    pub fn cur_list_insert(&mut self, name: &[u8], idx: usize, value: Vec<u8>) -> (r: bool)
        requires
            old(self).wf(),
            cur_is_list(old(self)@),
            cur_lists(old(self)@).contains_key(name@),
        ensures
            final(self).wf(),
            r == (idx < cur_lists(old(self)@)[name@].len()),
            if r {
                final(self)@ == with_cur_lists(
                    old(self)@,
                    cur_lists(old(self)@).insert(
                        name@,
                        cur_lists(old(self)@)[name@].insert(idx as int, value@),
                    ),
                )
            } else {
                final(self)@ == old(self)@
            },
    {
        let (i, j) = match self.locate_current() {
            Ok(p) => p,
            Err(_) => {
                proof {
                    assert(false);
                }
                return false;
            },
        };
        proof {
            assert(self.keyspaces@[i as int].1.wf());
        }
        let t: &mut Table = &mut self.keyspaces[i].1.tables[j].1;
        let r = match &mut t.data {
            TableData::List(lm) => lm.insert_elem(name, idx, value),
            TableData::Blob(_) => {
                proof {
                    assert(false);
                }
                false
            },
        };
        proof {
            Self::lemma_cur_table_updated(old(self), self, i as int, j as int);
            if r {
                assert(final(self)@ =~= with_cur_lists(
                    old(self)@,
                    cur_lists(old(self)@).insert(
                        name@,
                        cur_lists(old(self)@)[name@].insert(idx as int, value@),
                    ),
                ));
            } else {
                assert(final(self)@ =~~= old(self)@);
            }
        }
        r
    }

    /// Remove the element at `idx` of the named list when `idx` is in
    /// bounds; report `false` (and change nothing) otherwise.
    pub fn cur_list_remove(&mut self, name: &[u8], idx: usize) -> (r: bool)
        requires
            old(self).wf(),
            cur_is_list(old(self)@),
            cur_lists(old(self)@).contains_key(name@),
        ensures
            final(self).wf(),
            r == (idx < cur_lists(old(self)@)[name@].len()),
            if r {
                final(self)@ == with_cur_lists(
                    old(self)@,
                    cur_lists(old(self)@).insert(
                        name@,
                        cur_lists(old(self)@)[name@].remove(idx as int),
                    ),
                )
            } else {
                final(self)@ == old(self)@
            },
    {
        let (i, j) = match self.locate_current() {
            Ok(p) => p,
            Err(_) => {
                proof {
                    assert(false);
                }
                return false;
            },
        };
        proof {
            assert(self.keyspaces@[i as int].1.wf());
        }
        let t: &mut Table = &mut self.keyspaces[i].1.tables[j].1;
        let r = match &mut t.data {
            TableData::List(lm) => lm.remove_elem(name, idx),
            TableData::Blob(_) => {
                proof {
                    assert(false);
                }
                false
            },
        };
        proof {
            Self::lemma_cur_table_updated(old(self), self, i as int, j as int);
            if r {
                assert(final(self)@ =~= with_cur_lists(
                    old(self)@,
                    cur_lists(old(self)@).insert(
                        name@,
                        cur_lists(old(self)@)[name@].remove(idx as int),
                    ),
                ));
            } else {
                assert(final(self)@ =~~= old(self)@);
            }
        }
        r
    }

    /// Remove and return the element at `idx`, or the last element when no
    /// index is given; `None` reports a bad index (or an empty list).
    pub fn cur_list_pop(&mut self, name: &[u8], idx: Option<usize>) -> (r: Option<Vec<u8>>)
        requires
            old(self).wf(),
            cur_is_list(old(self)@),
            cur_lists(old(self)@).contains_key(name@),
        ensures
            final(self).wf(),
            ({
                let lst = cur_lists(old(self)@)[name@];
                match idx {
                    Some(at) => match r {
                        Some(v) => at < lst.len() && v@ == lst[at as int] && final(self)@
                            == with_cur_lists(
                            old(self)@,
                            cur_lists(old(self)@).insert(name@, lst.remove(at as int)),
                        ),
                        None => at >= lst.len() && final(self)@ == old(self)@,
                    },
                    None => match r {
                        Some(v) => lst.len() > 0 && v@ == lst.last() && final(self)@
                            == with_cur_lists(
                            old(self)@,
                            cur_lists(old(self)@).insert(name@, lst.drop_last()),
                        ),
                        None => lst.len() == 0 && final(self)@ == old(self)@,
                    },
                }
            }),
    {
        let (i, j) = match self.locate_current() {
            Ok(p) => p,
            Err(_) => {
                proof {
                    assert(false);
                }
                return None;
            },
        };
        proof {
            assert(self.keyspaces@[i as int].1.wf());
        }
        let t: &mut Table = &mut self.keyspaces[i].1.tables[j].1;
        let r = match &mut t.data {
            TableData::List(lm) => lm.pop_elem(name, idx),
            TableData::Blob(_) => {
                proof {
                    assert(false);
                }
                None
            },
        };
        proof {
            Self::lemma_cur_table_updated(old(self), self, i as int, j as int);
            let lst = cur_lists(old(self)@)[name@];
            match r {
                Some(_) => {
                    match idx {
                        Some(at) => {
                            assert(final(self)@ =~= with_cur_lists(
                                old(self)@,
                                cur_lists(old(self)@).insert(name@, lst.remove(at as int)),
                            ));
                        },
                        None => {
                            assert(final(self)@ =~= with_cur_lists(
                                old(self)@,
                                cur_lists(old(self)@).insert(name@, lst.drop_last()),
                            ));
                        },
                    }
                },
                None => {
                    assert(final(self)@ =~~= old(self)@);
                },
            }
        }
        r
    }

    /// Key and value encoding flags of the currently selected blob table.
    pub fn cur_blob_encodings(&self) -> (r: (bool, bool))
        requires
            self.wf(),
            cur_is_blob(self@),
        ensures
            r.0 == cur_table(self@)->0.k_enc,
            r.1 == cur_table(self@)->0.v_enc,
    {
        let (i, j) = match self.locate_current() {
            Ok(p) => p,
            Err(_) => {
                proof {
                    assert(false);
                }
                return (false, false);
            },
        };
        match &self.keyspaces[i].1.tables[j].1.data {
            TableData::Blob(b) => (b.is_key_encoded(), b.is_val_encoded()),
            TableData::List(_) => {
                proof {
                    assert(false);
                }
                (false, false)
            },
        }
    }

    /// A copy of the value bound to `key` in the currently selected blob
    /// table.
    pub fn cur_kv_get(&self, key: &[u8]) -> (r: Option<Vec<u8>>)
        requires
            self.wf(),
            cur_is_blob(self@),
        ensures
            match r {
                Some(v) => cur_kv(self@).contains_key(key@) && v@ == cur_kv(self@)[key@],
                None => !cur_kv(self@).contains_key(key@),
            },
    {
        let (i, j) = match self.locate_current() {
            Ok(p) => p,
            Err(_) => {
                proof {
                    assert(false);
                }
                return None;
            },
        };
        proof {
            assert(self.keyspaces@[i as int].1.wf());
        }
        match &self.keyspaces[i].1.tables[j].1.data {
            TableData::Blob(b) => match b.get(key) {
                Some(v) => Some(vstd::slice::slice_to_vec(v.as_slice())),
                None => None,
            },
            TableData::List(_) => {
                proof {
                    assert(false);
                }
                None
            },
        }
    }

    /// Bind `key` to `val` in the currently selected blob table only if
    /// `key` is fresh; report whether the binding happened.
    pub fn cur_kv_set(&mut self, key: Vec<u8>, val: Vec<u8>) -> (r: bool)
        requires
            old(self).wf(),
            cur_is_blob(old(self)@),
        ensures
            final(self).wf(),
            r == !cur_kv(old(self)@).contains_key(key@),
            if r {
                final(self)@ == with_cur_kv(old(self)@, cur_kv(old(self)@).insert(key@, val@))
            } else {
                final(self)@ == old(self)@
            },
    {
        let (i, j) = match self.locate_current() {
            Ok(p) => p,
            Err(_) => {
                proof {
                    assert(false);
                }
                return false;
            },
        };
        proof {
            assert(self.keyspaces@[i as int].1.wf());
        }
        let t: &mut Table = &mut self.keyspaces[i].1.tables[j].1;
        let r = match &mut t.data {
            TableData::Blob(b) => b.true_if_insert(key, val),
            TableData::List(_) => {
                proof {
                    assert(false);
                }
                false
            },
        };
        proof {
            Self::lemma_cur_table_updated(old(self), self, i as int, j as int);
            if r {
                assert(final(self)@ =~= with_cur_kv(
                    old(self)@,
                    cur_kv(old(self)@).insert(key@, val@),
                ));
            } else {
                assert(final(self)@ =~~= old(self)@);
            }
        }
        r
    }

    /// Remove the keyspace at entry `i`.
    fn remove_keyspace_at(&mut self, i: usize)
        requires
            old(self).wf(),
            i < old(self).keyspaces@.len(),
        ensures
            final(self).wf(),
            final(self)@ == (StoreModel {
                keyspaces: old(self)@.keyspaces.remove(old(self).keyspaces@[i as int].0@),
                cur_ks: old(self)@.cur_ks,
                cur_tbl: old(self)@.cur_tbl,
            }),
    {
        let ghost ks0 = self.keyspaces@;
        proof {
            lemma_as_map_remove(ks0, i as int);
        }
        let _ = self.keyspaces.remove(i);
        proof {
            let ksnew = self.keyspaces@;
            assert(ksnew =~= ks0.remove(i as int));
            assert(final(self).wf()) by {
                assert forall|x: int| 0 <= x < ksnew.len() implies (#[trigger] ksnew[x]).1.wf() by {
                    if x < i {
                        assert(ksnew[x] == ks0[x]);
                    } else {
                        assert(ksnew[x] == ks0[x + 1]);
                    }
                }
            }
            assert(final(self)@.keyspaces =~= old(self)@.keyspaces.remove(
                old(self).keyspaces@[i as int].0@,
            ));
            assert(final(self)@ =~= (StoreModel {
                keyspaces: old(self)@.keyspaces.remove(old(self).keyspaces@[i as int].0@),
                cur_ks: old(self)@.cur_ks,
                cur_tbl: old(self)@.cur_tbl,
            }));
        }
    }
}

} // verus!
