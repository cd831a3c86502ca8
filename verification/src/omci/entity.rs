//! Managed-entity instances: attributes with scalar values or keyed table rows.
use vstd::prelude::*;

use super::bytes::{
    bytes_equal, bytes_lt, compare_bytes, copy_bytes, lemma_bytes_lt_irreflexive, lemma_bytes_lt_total,
    lemma_bytes_lt_transitive, KeyOrder,
};
use super::sorted::{
    insert_sorted, lemma_insert_split, lemma_insert_sorted, lemma_lookup_absent, lemma_lookup_at,
    lemma_remove_first, lemma_remove_key, lemma_remove_split, lookup_key, remove_key, sorted_by,
    strict_order,
};

verus! {

/// A table row: its key bytes and its complete row bytes.
pub type RowView = (Seq<u8>, Seq<u8>);

pub open spec fn row_key() -> spec_fn(RowView) -> Seq<u8> {
    |row: RowView| row.0
}

pub open spec fn row_lt() -> spec_fn(Seq<u8>, Seq<u8>) -> bool {
    |a: Seq<u8>, b: Seq<u8>| bytes_lt(a, b)
}

pub proof fn lemma_row_order()
    ensures
        strict_order(row_lt()),
{
    assert forall|a: Seq<u8>| !#[trigger] row_lt()(a, a) by {
        lemma_bytes_lt_irreflexive(a);
    }
    assert forall|a: Seq<u8>, b: Seq<u8>, c: Seq<u8>| #[trigger] row_lt()(a, b) && #[trigger] row_lt()(b, c) implies row_lt()(a, c) by {
        lemma_bytes_lt_transitive(a, b, c);
    }
    assert forall|a: Seq<u8>, b: Seq<u8>| a != b implies #[trigger] row_lt()(a, b) || row_lt()(b, a) by {
        lemma_bytes_lt_total(a, b);
    }
}

/// Rows in increasing key order, one per key.
pub open spec fn rows_sorted(rows: Seq<RowView>) -> bool {
    sorted_by(rows, row_key(), row_lt())
}

pub open spec fn rows_insert(rows: Seq<RowView>, key: Seq<u8>, row: Seq<u8>) -> Seq<RowView> {
    insert_sorted(rows, (key, row), row_key(), row_lt())
}

pub open spec fn rows_remove(rows: Seq<RowView>, key: Seq<u8>) -> Seq<RowView> {
    remove_key(rows, key, row_key())
}

pub open spec fn rows_lookup(rows: Seq<RowView>, key: Seq<u8>) -> Option<RowView> {
    lookup_key(rows, key, row_key())
}

#[derive(Debug)]
pub struct TableRow {
    pub key: Vec<u8>,
    pub value: Vec<u8>,
}

impl View for TableRow {
    type V = RowView;

    open spec fn view(&self) -> RowView {
        (self.key@, self.value@)
    }
}

pub open spec fn rows_view(rows: Seq<TableRow>) -> Seq<RowView> {
    rows.map_values(|row: TableRow| row@)
}

/// Index of the row of `key`, if there is one.
pub fn find_row(rows: &Vec<TableRow>, key: &[u8]) -> (found: Option<usize>)
    ensures
        found matches Some(i) ==> i < rows.len() && rows@[i as int].key@ == key@ && rows_lookup(rows_view(rows@), key@)
            == Some(rows_view(rows@)[i as int]),
        found is None ==> rows_lookup(rows_view(rows@), key@) == None::<RowView>,
{
    let ghost v = rows_view(rows@);
    let mut i: usize = 0;
    while i < rows.len()
        invariant
            i <= rows.len(),
            v == rows_view(rows@),
            forall|j: int| 0 <= j < i ==> (#[trigger] v[j]).0 != key@,
        decreases rows.len() - i,
    {
        if bytes_equal(rows[i].key.as_slice(), key) {
            proof {
                lemma_lookup_at(v, i as int, row_key());
            }
            return Some(i);
        }
        i += 1;
    }
    proof {
        lemma_lookup_absent(v, key@, row_key());
    }
    None
}

fn key_less(a: &[u8], b: &[u8]) -> (less: bool)
    ensures
        less == bytes_lt(a@, b@),
{
    match compare_bytes(a, b) {
        KeyOrder::Less => true,
        _ => false,
    }
}

/// Puts `(key, row)` in key order, replacing the row of the same key.
pub fn insert_row(rows: &mut Vec<TableRow>, key: Vec<u8>, row: Vec<u8>)
    requires
        rows_sorted(rows_view(old(rows)@)),
    ensures
        rows_view(final(rows)@) == rows_insert(rows_view(old(rows)@), key@, row@),
        rows_sorted(rows_view(final(rows)@)),
{
    let ghost v = rows_view(rows@);
    let ghost x: RowView = (key@, row@);
    proof {
        lemma_row_order();
        lemma_insert_sorted(v, x, row_key(), row_lt());
    }
    let mut i: usize = 0;
    while i < rows.len()
        invariant
            i <= rows.len(),
            v == rows_view(rows@),
            rows == old(rows),
            forall|j: int| 0 <= j < i ==> bytes_lt((#[trigger] v[j]).0, key@),
        ensures
            i <= rows.len(),
            forall|j: int| 0 <= j < i ==> bytes_lt((#[trigger] v[j]).0, key@),
            i < rows.len() ==> !bytes_lt(v[i as int].0, key@),
        decreases rows.len() - i,
    {
        if !key_less(rows[i].key.as_slice(), key.as_slice()) {
            break;
        }
        i += 1;
    }
    proof {
        lemma_insert_split(v, x, i as int, row_key(), row_lt());
    }
    let ghost tail = v.skip(i as int);
    if i < rows.len() && bytes_equal(rows[i].key.as_slice(), key.as_slice()) {
        assert(tail[0].0 == key@);
        assert(insert_sorted(tail, x, row_key(), row_lt()) == seq![x] + tail.drop_first());
        rows.set(i, TableRow { key, value: row });
        assert(rows_view(rows@) =~= v.take(i as int) + (seq![x] + tail.drop_first()));
    } else if i < rows.len() {
        proof {
            let k0 = tail[0].0;
            assert(k0 == v[i as int].0);
            assert(!bytes_lt(k0, key@));
            lemma_bytes_lt_total(k0, key@);
            assert(bytes_lt(key@, k0));
            assert(insert_sorted(tail, x, row_key(), row_lt()) == seq![x] + tail);
        }
        rows.insert(i, TableRow { key, value: row });
        assert(rows_view(rows@) =~= v.take(i as int) + (seq![x] + tail));
    } else {
        assert(tail =~= Seq::<RowView>::empty());
        rows.push(TableRow { key, value: row });
        assert(rows_view(rows@) =~= v.take(i as int) + seq![x]);
    }
}

/// Removes the row of `key`, if there is one.
pub fn remove_row(rows: &mut Vec<TableRow>, key: &[u8])
    requires
        rows_sorted(rows_view(old(rows)@)),
    ensures
        rows_view(final(rows)@) == rows_remove(rows_view(old(rows)@), key@),
        rows_sorted(rows_view(final(rows)@)),
{
    let ghost v = rows_view(rows@);
    proof {
        lemma_row_order();
        lemma_remove_key(v, key@, row_key(), row_lt());
    }
    let mut i: usize = 0;
    while i < rows.len()
        invariant
            i <= rows.len(),
            v == rows_view(rows@),
            rows == old(rows),
            rows_sorted(v),
            forall|j: int| 0 <= j < i ==> (#[trigger] v[j]).0 != key@,
        decreases rows.len() - i,
    {
        if bytes_equal(rows[i].key.as_slice(), key) {
            proof {
                lemma_remove_split(v, key@, i as int, row_key());
                let tail = v.skip(i as int);
                assert forall|a: int, b: int| 0 <= a < b < tail.len() implies row_lt()(row_key()(#[trigger] tail[a]), row_key()(#[trigger] tail[b])) by {
                    assert(tail[a] == v[a + i] && tail[b] == v[b + i]);
                }
                lemma_row_order();
                lemma_remove_first(tail, row_key(), row_lt());
                assert(tail[0].0 == key@);
            }
            rows.remove(i);
            assert(rows_view(rows@) =~= v.take(i as int) + v.skip(i as int).drop_first());
            return;
        }
        i += 1;
    }
    proof {
        lemma_remove_split(v, key@, i as int, row_key());
        assert(v.skip(i as int) =~= Seq::<RowView>::empty());
        assert(v.take(i as int) + Seq::<RowView>::empty() =~= v);
    }
}

/// A copy of `rows`.
pub fn copy_rows(rows: &Vec<TableRow>) -> (copy: Vec<TableRow>)
    ensures
        rows_view(copy@) == rows_view(rows@),
{
    let mut copy: Vec<TableRow> = Vec::with_capacity(rows.len());
    let mut i: usize = 0;
    while i < rows.len()
        invariant
            i <= rows.len(),
            rows_view(copy@) == rows_view(rows@).take(i as int),
            copy.len() == i,
        decreases rows.len() - i,
    {
        let ghost before = copy@;
        copy.push(TableRow { key: copy_bytes(rows[i].key.as_slice()), value: copy_bytes(rows[i].value.as_slice()) });
        assert forall|k: int| 0 <= k <= i implies #[trigger] rows_view(copy@)[k] == rows_view(rows@).take(i + 1)[k] by {
            if k < i {
                assert(rows_view(before)[k] == rows_view(rows@).take(i as int)[k]);
            }
        }
        assert(rows_view(copy@) =~= rows_view(rows@).take(i + 1));
        i += 1;
    }
    assert(rows_view(rows@).take(rows.len() as int) =~= rows_view(rows@));
    copy
}

/// Whether two row lists are equal.
pub fn rows_equal(a: &Vec<TableRow>, b: &Vec<TableRow>) -> (equal: bool)
    ensures
        equal == (rows_view(a@) == rows_view(b@)),
{
    if a.len() != b.len() {
        assert(rows_view(a@).len() != rows_view(b@).len());
        return false;
    }
    let mut i: usize = 0;
    while i < a.len()
        invariant
            a.len() == b.len(),
            i <= a.len(),
            forall|k: int| 0 <= k < i ==> #[trigger] rows_view(a@)[k] == rows_view(b@)[k],
        decreases a.len() - i,
    {
        if !bytes_equal(a[i].key.as_slice(), b[i].key.as_slice()) || !bytes_equal(a[i].value.as_slice(), b[i].value.as_slice()) {
            assert(rows_view(a@)[i as int] != rows_view(b@)[i as int]);
            return false;
        }
        assert(rows_view(a@)[i as int] == rows_view(b@)[i as int]);
        i += 1;
    }
    assert(rows_view(a@) =~= rows_view(b@));
    true
}


pub ghost struct AttributeView {
    pub index: u8,
    pub value: Seq<u8>,
    pub writable: bool,
    pub table_row_len: Option<usize>,
    pub rows: Seq<RowView>,
    pub upload: bool,
}

pub open spec fn attribute_key() -> spec_fn(AttributeView) -> u8 {
    |attribute: AttributeView| attribute.index
}

pub open spec fn index_lt() -> spec_fn(u8, u8) -> bool {
    |a: u8, b: u8| a < b
}

/// Attributes in increasing index order, each table in row-key order.
pub open spec fn attributes_wf(attributes: Seq<AttributeView>) -> bool {
    &&& sorted_by(attributes, attribute_key(), index_lt())
    &&& forall|i: int| 0 <= i < attributes.len() ==> rows_sorted(#[trigger] attributes[i].rows)
}

/// The attribute of `index`.
pub open spec fn attribute_of(attributes: Seq<AttributeView>, index: u8) -> Option<AttributeView> {
    lookup_key(attributes, index, attribute_key())
}

pub open spec fn attributes_put(attributes: Seq<AttributeView>, attribute: AttributeView) -> Seq<AttributeView> {
    insert_sorted(attributes, attribute, attribute_key(), index_lt())
}

/// One attribute of a managed entity.
#[derive(Debug)]
pub struct Attribute {
    index: u8,
    value: Vec<u8>,
    writable: bool,
    table_row_len: Option<usize>,
    table_rows: Vec<TableRow>,
    upload: bool,
}

impl View for Attribute {
    type V = AttributeView;

    closed spec fn view(&self) -> AttributeView {
        AttributeView {
            index: self.index,
            value: self.value@,
            writable: self.writable,
            table_row_len: self.table_row_len,
            rows: rows_view(self.table_rows@),
            upload: self.upload,
        }
    }
}

impl Attribute {
    pub fn new(
        index: u8,
        value: Vec<u8>,
        writable: bool,
        table_row_len: Option<usize>,
        upload: bool,
    ) -> (attribute: Attribute)
        ensures
            attribute@ == (AttributeView { index, value: value@, writable, table_row_len, rows: Seq::empty(), upload }),
    {
        let attribute = Attribute { index, value, writable, table_row_len, table_rows: Vec::new(), upload };
        assert(attribute@.rows =~= Seq::<RowView>::empty());
        attribute
    }

    pub fn index(&self) -> (index: u8)
        ensures
            index == self@.index,
    {
        self.index
    }

    /// The scalar value (empty for a table).
    pub fn value(&self) -> (value: &Vec<u8>)
        ensures
            value@ == self@.value,
    {
        &self.value
    }

    pub fn writable(&self) -> (writable: bool)
        ensures
            writable == self@.writable,
    {
        self.writable
    }

    /// Row length of a table attribute; `None` for a scalar.
    pub fn table_row_len(&self) -> (row_len: Option<usize>)
        ensures
            row_len == self@.table_row_len,
    {
        self.table_row_len
    }

    /// Whether MIB upload carries this attribute.
    pub fn upload(&self) -> (upload: bool)
        ensures
            upload == self@.upload,
    {
        self.upload
    }

    /// The table rows in key order.
    pub fn rows(&self) -> (rows: &Vec<TableRow>)
        ensures
            rows_view(rows@) == self@.rows,
    {
        &self.table_rows
    }

    pub fn row_count(&self) -> (count: usize)
        ensures
            count == self@.rows.len(),
    {
        self.table_rows.len()
    }

    /// Whether the table has a row with `key`.
    pub fn contains_row(&self, key: &[u8]) -> (present: bool)
        ensures
            present == (rows_lookup(self@.rows, key@) is Some),
    {
        find_row(&self.table_rows, key).is_some()
    }

    /// A copy of this attribute.
    pub fn duplicate(&self) -> (copy: Attribute)
        ensures
            copy@ == self@,
    {
        Attribute {
            index: self.index,
            value: copy_bytes(self.value.as_slice()),
            writable: self.writable,
            table_row_len: self.table_row_len,
            table_rows: copy_rows(&self.table_rows),
            upload: self.upload,
        }
    }

    /// Whether two attributes are equal in every part.
    pub fn same_as(&self, other: &Attribute) -> (equal: bool)
        ensures
            equal == (self@ == other@),
    {
        self.index == other.index && bytes_equal(self.value.as_slice(), other.value.as_slice())
            && self.writable == other.writable && option_usize_equal(self.table_row_len, other.table_row_len)
            && rows_equal(&self.table_rows, &other.table_rows) && self.upload == other.upload
    }

    /// This attribute with `value` as its scalar value.
    pub fn with_value(self, value: Vec<u8>) -> (attribute: Attribute)
        ensures
            attribute@ == (AttributeView { value: value@, ..self@ }),
    {
        Attribute { value, ..self }
    }

    /// Puts a table row, replacing the row of the same key.
    pub fn put_row(&mut self, key: Vec<u8>, row: Vec<u8>)
        requires
            rows_sorted(old(self)@.rows),
        ensures
            final(self)@ == (AttributeView { rows: rows_insert(old(self)@.rows, key@, row@), ..old(self)@ }),
            rows_sorted(final(self)@.rows),
    {
        insert_row(&mut self.table_rows, key, row);
    }

    /// Removes the table row of `key`, if there is one.
    pub fn delete_row(&mut self, key: &[u8])
        requires
            rows_sorted(old(self)@.rows),
        ensures
            final(self)@ == (AttributeView { rows: rows_remove(old(self)@.rows, key@), ..old(self)@ }),
            rows_sorted(final(self)@.rows),
    {
        remove_row(&mut self.table_rows, key);
    }

    /// Removes every table row.
    pub fn clear_rows(&mut self)
        ensures
            final(self)@ == (AttributeView { rows: Seq::empty(), ..old(self)@ }),
    {
        self.table_rows.clear();
        assert(rows_view(self.table_rows@) =~= Seq::<RowView>::empty());
    }
}

fn option_usize_equal(a: Option<usize>, b: Option<usize>) -> (equal: bool)
    ensures
        equal == (a == b),
{
    match (a, b) {
        (Some(x), Some(y)) => x == y,
        (None, None) => true,
        _ => false,
    }
}

pub open spec fn attribute_views(attributes: Seq<Attribute>) -> Seq<AttributeView> {
    attributes.map_values(|attribute: Attribute| attribute@)
}

/// One instance of a managed entity: its attributes by index.
#[derive(Debug)]
pub struct ManagedEntity {
    attributes: Vec<Attribute>,
}

impl View for ManagedEntity {
    type V = Seq<AttributeView>;

    closed spec fn view(&self) -> Seq<AttributeView> {
        attribute_views(self.attributes@)
    }
}

impl Default for ManagedEntity {
    fn default() -> (entity: ManagedEntity)
        ensures
            entity@ == Seq::<AttributeView>::empty(),
    {
        let entity = ManagedEntity { attributes: Vec::new() };
        assert(entity@ =~= Seq::<AttributeView>::empty());
        entity
    }
}

impl ManagedEntity {
    /// An entity with no attributes.
    pub fn empty() -> (entity: ManagedEntity)
        ensures
            entity@ == Seq::<AttributeView>::empty(),
    {
        let entity = ManagedEntity { attributes: Vec::new() };
        assert(entity@ =~= Seq::<AttributeView>::empty());
        entity
    }

    /// The attributes in index order.
    pub fn attributes(&self) -> (attributes: &Vec<Attribute>)
        ensures
            attribute_views(attributes@) == self@,
    {
        &self.attributes
    }

    /// Position of the attribute of `index`, if present.
    pub fn find(&self, index: u8) -> (found: Option<usize>)
        ensures
            found matches Some(i) ==> i < self@.len() && self@[i as int].index == index
                && attribute_of(self@, index) == Some(self@[i as int]),
            found is None ==> attribute_of(self@, index) == None::<AttributeView>,
    {
        let ghost v = self@;
        let mut i: usize = 0;
        while i < self.attributes.len()
            invariant
                i <= self.attributes.len(),
                v == self@,
                forall|j: int| 0 <= j < i ==> (#[trigger] v[j]).index != index,
            decreases self.attributes.len() - i,
        {
            if self.attributes[i].index == index {
                proof {
                    lemma_lookup_at(v, i as int, attribute_key());
                }
                return Some(i);
            }
            i += 1;
        }
        proof {
            lemma_lookup_absent(v, index, attribute_key());
        }
        None
    }

    /// The attribute of `index`, if present.
    pub fn attribute(&self, index: u8) -> (attribute: Option<&Attribute>)
        ensures
            match attribute {
                Some(a) => attribute_of(self@, index) == Some(a@),
                None => attribute_of(self@, index) is None,
            },
    {
        match self.find(index) {
            Some(i) => Some(&self.attributes[i]),
            None => None,
        }
    }

    /// The attribute at position `i`.
    pub fn attribute_at(&self, i: usize) -> (attribute: &Attribute)
        requires
            i < self@.len(),
        ensures
            attribute@ == self@[i as int],
    {
        &self.attributes[i]
    }

    /// Replaces the attribute at position `i` by one of the same index.
    pub fn replace_at(&mut self, i: usize, attribute: Attribute)
        requires
            i < old(self)@.len(),
            attribute@.index == old(self)@[i as int].index,
        ensures
            final(self)@ == old(self)@.update(i as int, attribute@),
    {
        let ghost a = attribute@;
        self.attributes.set(i, attribute);
        assert(self@ =~= old(self)@.update(i as int, a));
    }

    /// Takes the attribute at position `i` out, leaving an empty attribute of the same index.
    pub fn take_at(&mut self, i: usize) -> (attribute: Attribute)
        requires
            i < old(self)@.len(),
        ensures
            attribute@ == old(self)@[i as int],
            final(self)@.len() == old(self)@.len(),
            final(self)@[i as int].index == old(self)@[i as int].index,
            forall|j: int| 0 <= j < old(self)@.len() && j != i ==> final(self)@[j] == old(self)@[j],
    {
        let index = self.attributes[i].index;
        let placeholder = Attribute::new(index, Vec::new(), false, None, false);
        let ghost before = self@;
        let attribute = self.attributes.remove(i);
        self.attributes.insert(i, placeholder);
        assert(self@.len() == before.len());
        assert forall|j: int| 0 <= j < before.len() && j != i implies self@[j] == before[j] by {
            if j < i {
                assert(self.attributes@[j] == old(self).attributes@[j]);
            } else {
                assert(self.attributes@[j] == old(self).attributes@[j]);
            }
        }
        attribute
    }

    /// Puts `attribute`, replacing the attribute of the same index.
    pub fn put(&mut self, attribute: Attribute)
        requires
            attributes_wf(old(self)@),
            rows_sorted(attribute@.rows),
        ensures
            final(self)@ == attributes_put(old(self)@, attribute@),
            attributes_wf(final(self)@),
    {
        let ghost v = self@;
        let ghost x = attribute@;
        proof {
            lemma_insert_sorted(v, x, attribute_key(), index_lt());
            lemma_put_rows_sorted(v, x);
        }
        let mut i: usize = 0;
        while i < self.attributes.len() && self.attributes[i].index < attribute.index
            invariant
                i <= self.attributes.len(),
                v == self@,
                x == attribute@,
                forall|j: int| 0 <= j < i ==> (#[trigger] v[j]).index < x.index,
            decreases self.attributes.len() - i,
        {
            i += 1;
        }
        proof {
            lemma_insert_split(v, x, i as int, attribute_key(), index_lt());
        }
        let ghost tail = v.skip(i as int);
        if i < self.attributes.len() && self.attributes[i].index == attribute.index {
            assert(insert_sorted(tail, x, attribute_key(), index_lt()) == seq![x] + tail.drop_first());
            self.attributes.set(i, attribute);
            assert(self@ =~= v.take(i as int) + (seq![x] + tail.drop_first()));
        } else if i < self.attributes.len() {
            assert(insert_sorted(tail, x, attribute_key(), index_lt()) == seq![x] + tail);
            self.attributes.insert(i, attribute);
            assert(self@ =~= v.take(i as int) + (seq![x] + tail));
        } else {
            assert(tail =~= Seq::<AttributeView>::empty());
            self.attributes.push(attribute);
            assert(self@ =~= v.take(i as int) + seq![x]);
        }
    }

    /// This entity with a read-only scalar attribute.
    pub fn read_only(self, index: u8, value: Vec<u8>) -> (entity: ManagedEntity)
        requires
            attributes_wf(self@),
        ensures
            entity@ == attributes_put(self@, scalar_view(index, value@, false)),
            attributes_wf(entity@),
            indices_below(self@, index) ==> entity@ == self@.push(scalar_view(index, value@, false)),
            indices_below(self@, index) ==> indices_at_most(entity@, index),
    {
        proof {
            if indices_below(self@, index) {
                lemma_put_last(self@, scalar_view(index, value@, false));
            }
        }
        let mut entity = self;
        entity.put(Attribute::new(index, value, false, None, true));
        entity
    }

    /// This entity with a read-write scalar attribute.
    pub fn read_write(self, index: u8, value: Vec<u8>) -> (entity: ManagedEntity)
        requires
            attributes_wf(self@),
        ensures
            entity@ == attributes_put(self@, scalar_view(index, value@, true)),
            attributes_wf(entity@),
            indices_below(self@, index) ==> entity@ == self@.push(scalar_view(index, value@, true)),
            indices_below(self@, index) ==> indices_at_most(entity@, index),
    {
        proof {
            if indices_below(self@, index) {
                lemma_put_last(self@, scalar_view(index, value@, true));
            }
        }
        let mut entity = self;
        entity.put(Attribute::new(index, value, true, None, true));
        entity
    }

    /// This entity with an empty writable table attribute.
    pub fn table(self, index: u8, row_len: usize) -> (entity: ManagedEntity)
        requires
            attributes_wf(self@),
        ensures
            entity@ == attributes_put(self@, table_view(index, row_len, true)),
            attributes_wf(entity@),
            indices_below(self@, index) ==> entity@ == self@.push(table_view(index, row_len, true)),
            indices_below(self@, index) ==> indices_at_most(entity@, index),
    {
        proof {
            if indices_below(self@, index) {
                lemma_put_last(self@, table_view(index, row_len, true));
            }
        }
        let mut entity = self;
        entity.put(Attribute::new(index, Vec::new(), true, Some(row_len), false));
        entity
    }

    /// This entity with an empty read-only table attribute.
    pub fn read_only_table(self, index: u8, row_len: usize) -> (entity: ManagedEntity)
        requires
            attributes_wf(self@),
        ensures
            entity@ == attributes_put(self@, table_view(index, row_len, false)),
            attributes_wf(entity@),
            indices_below(self@, index) ==> entity@ == self@.push(table_view(index, row_len, false)),
            indices_below(self@, index) ==> indices_at_most(entity@, index),
    {
        proof {
            if indices_below(self@, index) {
                lemma_put_last(self@, table_view(index, row_len, false));
            }
        }
        let mut entity = self;
        entity.put(Attribute::new(index, Vec::new(), false, Some(row_len), false));
        entity
    }

    /// Puts a row into the table attribute of `index`; false where the entity has no such attribute.
    pub fn insert_table_row(&mut self, index: u8, key: Vec<u8>, row: Vec<u8>) -> (present: bool)
        requires
            attributes_wf(old(self)@),
        ensures
            attributes_wf(final(self)@),
            present == (attribute_of(old(self)@, index) is Some),
            match attribute_of(old(self)@, index) {
                Some(a) => final(self)@ == attributes_put(old(self)@, AttributeView { rows: rows_insert(a.rows, key@, row@), ..a }),
                None => final(self)@ == old(self)@,
            },
    {
        match self.find(index) {
            Some(i) => {
                let ghost old_view = self@;
                let mut attribute = self.take_at(i);
                assert(rows_sorted(old_view[i as int].rows));
                attribute.put_row(key, row);
                let ghost a = attribute@;
                self.replace_at(i, attribute);
                proof {
                    assert(self@ =~= old_view.update(i as int, a));
                    lemma_put_existing(old_view, i as int, a);
                }
                true
            },
            None => false,
        }
    }

    /// A copy of this entity.
    pub fn duplicate(&self) -> (copy: ManagedEntity)
        ensures
            copy@ == self@,
    {
        let mut attributes: Vec<Attribute> = Vec::with_capacity(self.attributes.len());
        let mut i: usize = 0;
        while i < self.attributes.len()
            invariant
                i <= self.attributes.len(),
                attributes.len() == i,
                attribute_views(attributes@) == self@.take(i as int),
            decreases self.attributes.len() - i,
        {
            let ghost before = attributes@;
            attributes.push(self.attributes[i].duplicate());
            assert forall|k: int| 0 <= k <= i implies #[trigger] attribute_views(attributes@)[k] == self@.take(i + 1)[k] by {
                if k < i {
                    assert(attribute_views(before)[k] == self@.take(i as int)[k]);
                }
            }
            assert(attribute_views(attributes@) =~= self@.take(i + 1));
            i += 1;
        }
        assert(self@.take(self@.len() as int) =~= self@);
        ManagedEntity { attributes }
    }

    /// Whether two entities are equal in every attribute.
    pub fn same_as(&self, other: &ManagedEntity) -> (equal: bool)
        ensures
            equal == (self@ == other@),
    {
        if self.attributes.len() != other.attributes.len() {
            assert(self@.len() != other@.len());
            return false;
        }
        let mut i: usize = 0;
        while i < self.attributes.len()
            invariant
                self.attributes.len() == other.attributes.len(),
                i <= self.attributes.len(),
                forall|k: int| 0 <= k < i ==> #[trigger] self@[k] == other@[k],
            decreases self.attributes.len() - i,
        {
            if !self.attributes[i].same_as(&other.attributes[i]) {
                assert(self@[i as int] != other@[i as int]);
                return false;
            }
            i += 1;
        }
        assert(self@ =~= other@);
        true
    }
}

pub open spec fn scalar_view(index: u8, value: Seq<u8>, writable: bool) -> AttributeView {
    AttributeView { index, value, writable, table_row_len: None, rows: Seq::empty(), upload: true }
}

pub open spec fn table_view(index: u8, row_len: usize, writable: bool) -> AttributeView {
    AttributeView { index, value: Seq::empty(), writable, table_row_len: Some(row_len), rows: Seq::empty(), upload: false }
}

proof fn lemma_put_rows_sorted(v: Seq<AttributeView>, x: AttributeView)
    requires
        forall|i: int| 0 <= i < v.len() ==> rows_sorted(#[trigger] v[i].rows),
        rows_sorted(x.rows),
    ensures
        forall|i: int| 0 <= i < attributes_put(v, x).len() ==> rows_sorted(#[trigger] attributes_put(v, x)[i].rows),
    decreases v.len(),
{
    let r = attributes_put(v, x);
    if v.len() > 0 && v[0].index != x.index && !(x.index < v[0].index) {
        let t = v.drop_first();
        assert forall|i: int| 0 <= i < t.len() implies rows_sorted(#[trigger] t[i].rows) by {
            assert(t[i] == v[i + 1]);
        }
        lemma_put_rows_sorted(t, x);
        let rt = attributes_put(t, x);
        assert(r == seq![v[0]] + rt);
        assert forall|i: int| 0 <= i < r.len() implies rows_sorted(#[trigger] r[i].rows) by {
            if i > 0 {
                assert(r[i] == rt[i - 1]);
            }
        }
    } else if v.len() > 0 && v[0].index == x.index {
        assert(r == seq![x] + v.drop_first());
        assert forall|i: int| 0 <= i < r.len() implies rows_sorted(#[trigger] r[i].rows) by {
            if i > 0 {
                assert(r[i] == v[i]);
            }
        }
    } else if v.len() > 0 {
        assert(r == seq![x] + v);
        assert forall|i: int| 0 <= i < r.len() implies rows_sorted(#[trigger] r[i].rows) by {
            if i > 0 {
                assert(r[i] == v[i - 1]);
            }
        }
    } else {
        assert(r == seq![x]);
    }
}

/// Putting an attribute over the existing one of its index replaces it in place.
pub proof fn lemma_put_existing(v: Seq<AttributeView>, i: int, a: AttributeView)
    requires
        attributes_wf(v),
        0 <= i < v.len(),
        a.index == v[i].index,
        rows_sorted(a.rows),
    ensures
        attributes_put(v, a) == v.update(i, a),
        attributes_wf(v.update(i, a)),
        attribute_of(v, a.index) == Some(v[i]),
{
    lemma_insert_sorted(v, a, attribute_key(), index_lt());
    assert forall|j: int| 0 <= j < i implies (#[trigger] v[j]).index < a.index by {
        assert(index_lt()(attribute_key()(v[j]), attribute_key()(v[i])));
    }
    lemma_insert_split(v, a, i, attribute_key(), index_lt());
    let tail = v.skip(i);
    assert(tail[0].index == a.index);
    assert(insert_sorted(tail, a, attribute_key(), index_lt()) == seq![a] + tail.drop_first());
    assert(v.update(i, a) =~= v.take(i) + (seq![a] + tail.drop_first()));
    lemma_put_rows_sorted(v, a);
    lemma_lookup_at(v, i, attribute_key());
}


impl ManagedEntity {
    /// Appends an attribute whose index is above every present index.
    pub fn push_attribute(&mut self, attribute: Attribute)
        requires
            attributes_wf(old(self)@),
            rows_sorted(attribute@.rows),
            forall|i: int| 0 <= i < old(self)@.len() ==> (#[trigger] old(self)@[i]).index < attribute@.index,
        ensures
            final(self)@ == old(self)@.push(attribute@),
            attributes_wf(final(self)@),
    {
        let ghost a = attribute@;
        self.attributes.push(attribute);
        assert(self@ =~= old(self)@.push(a));
        assert forall|i: int, j: int| 0 <= i < j < self@.len() implies index_lt()(attribute_key()(#[trigger] self@[i]), attribute_key()(#[trigger] self@[j])) by {
            if j == self@.len() - 1 {
                assert(self@[i] == old(self)@[i]);
            } else {
                assert(self@[i] == old(self)@[i] && self@[j] == old(self)@[j]);
            }
        }
        assert forall|i: int| 0 <= i < self@.len() implies rows_sorted(#[trigger] self@[i].rows) by {
            if i < self@.len() - 1 {
                assert(self@[i] == old(self)@[i]);
            }
        }
    }
}

/// `update_attribute` on a well-formed list touches only the attribute at the position of its index.
pub proof fn lemma_attribute_position(attributes: Seq<AttributeView>, i: int)
    requires
        attributes_wf(attributes),
        0 <= i < attributes.len(),
    ensures
        forall|j: int| 0 <= j < attributes.len() && j != i ==> (#[trigger] attributes[j]).index != attributes[i].index,
        attribute_of(attributes, attributes[i].index) == Some(attributes[i]),
{
    assert forall|j: int| 0 <= j < attributes.len() && j != i implies (#[trigger] attributes[j]).index != attributes[i].index by {
        if j < i {
            assert(index_lt()(attribute_key()(attributes[j]), attribute_key()(attributes[i])));
        } else {
            assert(index_lt()(attribute_key()(attributes[i]), attribute_key()(attributes[j])));
        }
    }
    lemma_lookup_at(attributes, i, attribute_key());
}

/// `attributes` with the attribute of `attribute.index` replaced by `attribute`.
pub open spec fn attributes_replace(attributes: Seq<AttributeView>, attribute: AttributeView) -> Seq<AttributeView> {
    attributes.map_values(|a: AttributeView| if a.index == attribute.index { attribute } else { a })
}

/// The attribute of `index` has a non-empty value, where present.
pub open spec fn value_present(attributes: Seq<AttributeView>, index: u8) -> bool {
    attribute_of(attributes, index) matches Some(a) ==> a.value.len() > 0
}

/// Attributes at the same positions have the same index, access and table kind.
pub open spec fn same_layout(a: Seq<AttributeView>, b: Seq<AttributeView>) -> bool {
    &&& a.len() == b.len()
    &&& forall|j: int| 0 <= j < a.len() ==> {
        &&& (#[trigger] a[j]).index == b[j].index
        &&& a[j].writable == b[j].writable
        &&& a[j].table_row_len == b[j].table_row_len
    }
}

/// Replacing an existing attribute changes what its index finds and nothing else.
pub proof fn lemma_replace(attributes: Seq<AttributeView>, attribute: AttributeView)
    requires
        attributes_wf(attributes),
        attribute_of(attributes, attribute.index) is Some,
    ensures
        attributes_replace(attributes, attribute).len() == attributes.len(),
        attribute_of(attributes, attribute.index) matches Some(o) && o.writable == attribute.writable
            && o.table_row_len == attribute.table_row_len ==> same_layout(attributes, attributes_replace(attributes, attribute)),
        forall|j: int| 0 <= j < attributes.len() ==> (#[trigger] attributes_replace(attributes, attribute)[j]).index == attributes[j].index,
        forall|k: u8| #[trigger] attribute_of(attributes_replace(attributes, attribute), k)
            == if k == attribute.index { Some(attribute) } else { attribute_of(attributes, k) },
        rows_sorted(attribute.rows) ==> attributes_wf(attributes_replace(attributes, attribute)),
{
    super::sorted::lemma_lookup_found(attributes, attribute.index, attribute_key());
    let m = choose|m: int| 0 <= m < attributes.len() && attributes[m] == attribute_of(attributes, attribute.index).unwrap()
        && attributes[m].index == attribute.index;
    lemma_attribute_position(attributes, m);
    let r = attributes_replace(attributes, attribute);
    assert(r =~= attributes.update(m, attribute));
    assert forall|k: u8| #[trigger] attribute_of(r, k) == if k == attribute.index { Some(attribute) } else { attribute_of(attributes, k) } by {
        if k == attribute.index {
            assert forall|j: int| 0 <= j < m implies attribute_key()(#[trigger] r[j]) != attribute_key()(r[m]) by {
                assert(r[j] == attributes[j]);
            }
            lemma_lookup_at(r, m, attribute_key());
        } else {
            super::sorted::lemma_lookup_update(attributes, m, attribute, k, attribute_key());
        }
    }
    if rows_sorted(attribute.rows) {
        lemma_put_existing(attributes, m, attribute);
    }
}

/// What `attribute_of` finds carries the index it was looked up by and sorted rows.
pub proof fn lemma_attribute_of(attributes: Seq<AttributeView>, k: u8)
    requires
        attributes_wf(attributes),
    ensures
        attribute_of(attributes, k) matches Some(a) ==> a.index == k && rows_sorted(a.rows),
{
    super::sorted::lemma_lookup_found(attributes, k, attribute_key());
}

/// Every index is present in both lists or in neither, with the same access,
/// table kind and value length.
pub open spec fn same_shape(a: Seq<AttributeView>, b: Seq<AttributeView>) -> bool {
    forall|k: u8| {
        &&& (#[trigger] attribute_of(a, k) is Some <==> attribute_of(b, k) is Some)
        &&& (attribute_of(a, k) matches Some(x) ==> attribute_of(b, k) matches Some(y) && x.writable == y.writable
            && x.table_row_len == y.table_row_len && x.value.len() == y.value.len())
    }
}

/// Every attribute index of `attributes` is below `index`.
pub open spec fn indices_below(attributes: Seq<AttributeView>, index: u8) -> bool {
    forall|i: int| 0 <= i < attributes.len() ==> (#[trigger] attributes[i]).index < index
}

/// Every attribute index of `attributes` is at most `index`.
pub open spec fn indices_at_most(attributes: Seq<AttributeView>, index: u8) -> bool {
    forall|i: int| 0 <= i < attributes.len() ==> (#[trigger] attributes[i]).index <= index
}

/// Putting an attribute above every present index appends it.
pub proof fn lemma_put_last(s: Seq<AttributeView>, a: AttributeView)
    requires
        indices_below(s, a.index),
    ensures
        attributes_put(s, a) == s.push(a),
    decreases s.len(),
{
    if s.len() > 0 {
        let t = s.drop_first();
        assert(indices_below(t, a.index)) by {
            assert forall|i: int| 0 <= i < t.len() implies (#[trigger] t[i]).index < a.index by {
                assert(t[i] == s[i + 1]);
            }
        }
        lemma_put_last(t, a);
        assert(s.push(a) =~= seq![s[0]] + t.push(a));
    } else {
        assert(s.push(a) =~= seq![a]);
    }
}

} // verus!
