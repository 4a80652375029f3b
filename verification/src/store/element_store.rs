//! The store of materialized collections: which table a collection goes to, in
//! which layout, and what a scan gives back.
use crate::shared::{
    layout_get, layout_insert, layout_insert_new, layouts_clear, layouts_in, new_layouts,
};
use crate::store::batch::{
    batch_fault, batch_round_trip, beamrecords_to_record_batch, columns_hold, has_columns,
    has_unreadable, record_batch_to_beamrecords, reports, row_record, tells_unreadable,
};
use crate::store::columns::RecordBatch;
use crate::store::record::{record_model, records_model, BeamRecord, RecordV};
use crate::store::table::{derive_table_schema, layout_of, LayoutV, RecordTableSchema, TableType};
use crate::utils::errors::ElementStoreError;
use dashmap::DashMap;
use std::sync::Arc;
use vstd::prelude::*;
use vstd::string::*;

verus! {

/// The layouts of the collections of a job, each derived once.
pub struct FlareSchemaRegistry {
    table_schemas: DashMap<String, Arc<RecordTableSchema>>,
}

impl FlareSchemaRegistry {
    /// The layouts by the ids of their collections.
    pub closed spec fn layouts(self) -> Map<Seq<char>, RecordTableSchema> {
        layouts_in(self.table_schemas)
    }

    /// A registry without layouts.
    pub fn new() -> (r: FlareSchemaRegistry)
        ensures
            r.layouts() == Map::<Seq<char>, RecordTableSchema>::empty(),
    {
        FlareSchemaRegistry { table_schemas: new_layouts() }
    }

    /// The layout of a collection, where it is known.
    pub fn get(&self, pcollection_id: &str) -> (r: Option<Arc<RecordTableSchema>>)
        ensures
            match r {
                Some(s) => self.layouts().contains_key(pcollection_id@)
                    && self.layouts()[pcollection_id@] == *s,
                None => !self.layouts().contains_key(pcollection_id@),
            },
    {
        layout_get(&self.table_schemas, pcollection_id)
    }

    /// Sets the layout of a collection.
    pub fn register(&mut self, pcollection_id: &str, schema: Arc<RecordTableSchema>)
        ensures
            final(self).layouts() == old(self).layouts().insert(pcollection_id@, *schema),
    {
        layout_insert(&mut self.table_schemas, pcollection_id.to_string(), schema);
    }

    /// Sets the layout of a collection that has none.
    pub fn register_if_absent(&mut self, pcollection_id: &str, schema: Arc<RecordTableSchema>)
        ensures
            final(self).layouts() == (if old(self).layouts().contains_key(pcollection_id@) {
                old(self).layouts()
            } else {
                old(self).layouts().insert(pcollection_id@, *schema)
            }),
    {
        layout_insert_new(&mut self.table_schemas, pcollection_id.to_string(), schema);
    }

    /// Forgets all layouts.
    pub fn clear(&mut self)
        ensures
            final(self).layouts() == Map::<Seq<char>, RecordTableSchema>::empty(),
    {
        layouts_clear(&mut self.table_schemas);
    }
}

impl Default for FlareSchemaRegistry {
    fn default() -> (r: FlareSchemaRegistry)
        ensures
            r.layouts() == Map::<Seq<char>, RecordTableSchema>::empty(),
    {
        Self::new()
    }
}

/// Elements to be written to a collection.
#[derive(Debug)]
pub struct NewCollectionRequest {
    pub pcollection_id: String,
    pub elements: Vec<BeamRecord>,
}

/// A collection to be read.
#[derive(Debug)]
pub struct ScanCollectionRequest {
    pub pcollection_id: String,
}

/// The name of a table.
#[derive(Debug, PartialEq, Eq)]
pub struct TableIdentifier {
    pub database: String,
    pub table: String,
}

/// Whether a character cannot stand in the name of a table.
pub open spec fn is_unsafe(c: char) -> bool {
    c == '/' || c == '.' || c == ' ' || c == '(' || c == ')'
}

/// A text with `_` in place of every character that cannot stand in the name of
/// a table.
pub open spec fn sanitized(id: Seq<char>) -> Seq<char> {
    Seq::new(
        id.len(),
        |i: int|
            if is_unsafe(id[i]) {
                '_'
            } else {
                id[i]
            },
    )
}

/// A sanitized id is as long as the id, holds no character that cannot stand in
/// the name of a table, and is kept as it is when sanitized again.
pub proof fn sanitized_is_safe(id: Seq<char>)
    ensures
        sanitized(id).len() == id.len(),
        forall|i: int| 0 <= i < id.len() ==> !is_unsafe(#[trigger] sanitized(id)[i]),
        sanitized(sanitized(id)) == sanitized(id),
{
    assert(sanitized(sanitized(id)) =~= sanitized(id));
}

/// A batch to be written to a table; the table is made in the layout where it is
/// not there.
#[derive(Debug)]
pub struct TableWrite {
    pub table: TableIdentifier,
    pub schema: Arc<RecordTableSchema>,
    pub batch: RecordBatch,
}

/// A table to be read in a layout.
#[derive(Debug)]
pub struct TableScan {
    pub table: TableIdentifier,
    pub schema: Arc<RecordTableSchema>,
}

/// The store of the collections of a job.
pub struct FlareElementStore {
    pub registry: FlareSchemaRegistry,
    pub db_name: String,
}

/// The layout that a write to a collection uses: the one that is known, else the
/// one of the elements.
pub open spec fn layout_for(
    layouts: Map<Seq<char>, RecordTableSchema>,
    id: Seq<char>,
    elements: Seq<RecordV>,
) -> Option<LayoutV> {
    if layouts.contains_key(id) {
        Some(layouts[id].model())
    } else {
        layout_of(elements)
    }
}

/// The records that the rows of some batches hold, in order.
pub open spec fn rows_of(batches: Seq<RecordBatch>, t: TableType) -> Seq<Option<RecordV>>
    decreases batches.len(),
{
    if batches.len() == 0 {
        Seq::empty()
    } else {
        rows_of(batches.drop_last(), t) + Seq::new(
            batches.last().rows as nat,
            |i: int| row_record(batches.last(), t, i),
        )
    }
}

/// Whether a batch can be read as records of a kind of table.
pub open spec fn is_readable(batch: RecordBatch, t: TableType) -> bool {
    has_columns(batch, t) && !has_unreadable(batch, t)
}

impl FlareElementStore {
    /// A store whose tables stand in that database.
    pub fn new(db_name: String) -> (r: FlareElementStore)
        ensures
            r.db_name == db_name,
            r.registry.layouts() == Map::<Seq<char>, RecordTableSchema>::empty(),
    {
        FlareElementStore { registry: FlareSchemaRegistry::new(), db_name }
    }

    /// The id with `_` in place of every character that cannot stand in the name
    /// of a table.
    pub fn sanitize_pcollection_id(id: &str) -> (r: String)
        ensures
            r@ == sanitized(id@),
    {
        let n: usize = id.unicode_len();
        let mut out = String::new();
        let mut i: usize = 0;
        while i < n
            invariant
                n == id@.len(),
                i <= n,
                out@ == sanitized(id@).take(i as int),
            decreases n - i,
        {
            let c = id.get_char(i);
            let ghost before = out@;
            if c == '/' || c == '.' || c == ' ' || c == '(' || c == ')' {
                proof {
                    reveal_strlit("_");
                }
                out.append("_");
                assert(out@ =~= before.push('_'));
            } else {
                out.append(id.substring_char(i, i + 1));
                assert(out@ =~= before.push(c));
            }
            assert(sanitized(id@).take(i + 1) =~= sanitized(id@).take(i as int).push(
                sanitized(id@)[i as int],
            ));
            i = i + 1;
        }
        assert(sanitized(id@).take(n as int) =~= sanitized(id@));
        out
    }

    /// The table of a collection.
    pub fn table_identifier(&self, pcollection_id: &str) -> (r: TableIdentifier)
        ensures
            r.database@ == self.db_name@,
            r.table@ == sanitized(pcollection_id@),
    {
        TableIdentifier {
            database: self.db_name.clone(),
            table: Self::sanitize_pcollection_id(pcollection_id),
        }
    }

    /// What is written for the elements of a collection. The layout is derived
    /// from the first elements that are written to a collection, and kept.
    pub fn write_beamrecord_batch(&mut self, req: NewCollectionRequest) -> (r: Result<
        TableWrite,
        ElementStoreError,
    >)
        ensures
            final(self).db_name == old(self).db_name,
            ({
                let id = req.pcollection_id@;
                let elements = records_model(req.elements@);
                let known = old(self).registry.layouts();
                match layout_for(known, id, elements) {
                    None => {
                        &&& final(self).registry.layouts() == known
                        &&& r matches Err(e) && (e matches ElementStoreError::Schema(m)
                            && crate::store::table::layout_refusal(id, elements) == Some(m@))
                    },
                    Some(layout) => {
                        &&& final(self).registry.layouts().contains_key(id)
                        &&& final(self).registry.layouts()[id].model() == layout
                        &&& final(self).registry.layouts() == known.insert(
                            id,
                            final(self).registry.layouts()[id],
                        )
                        &&& match r {
                            Ok(write) => {
                                &&& batch_fault(elements, layout) is None
                                &&& write.table.database@ == old(self).db_name@
                                &&& write.table.table@ == sanitized(id)
                                &&& write.schema.model() == layout
                                &&& write.batch.wf()
                                &&& write.batch.schema.model() == layout.fields
                                &&& write.batch.rows == elements.len()
                                &&& columns_hold(
                                    write.batch.columns@,
                                    layout.table_type,
                                    elements,
                                )
                            },
                            Err(e) => batch_fault(elements, layout) matches Some(f) && reports(
                                e,
                                f,
                            ),
                        }
                    },
                }
            }),
    {
        let id = req.pcollection_id.as_str();
        let ghost known = self.registry.layouts();
        let schema = match self.registry.get(id) {
            Some(schema) => {
                assert(known =~= known.insert(id@, known[id@]));
                schema
            },
            None => {
                let schema = match derive_table_schema(id, &req.elements) {
                    Ok(schema) => Arc::new(schema),
                    Err(e) => {
                        return Err(e);
                    },
                };
                self.registry.register(id, Arc::clone(&schema));
                schema
            },
        };
        match beamrecords_to_record_batch(&req.elements, &schema) {
            Ok(batch) => Ok(TableWrite { table: self.table_identifier(id), schema, batch }),
            Err(e) => Err(e),
        }
    }

    /// What is written for a batch whose layout is known. The layout is kept for
    /// a collection that has none.
    pub fn write_record_batch(
        &mut self,
        pcollection_id: &str,
        batch: RecordBatch,
        table_schema: Arc<RecordTableSchema>,
    ) -> (r: TableWrite)
        ensures
            final(self).db_name == old(self).db_name,
            final(self).registry.layouts() == (if old(self).registry.layouts().contains_key(
                pcollection_id@,
            ) {
                old(self).registry.layouts()
            } else {
                old(self).registry.layouts().insert(pcollection_id@, *table_schema)
            }),
            r.batch == batch,
            r.schema == table_schema,
            r.table.database@ == old(self).db_name@,
            r.table.table@ == sanitized(pcollection_id@),
    {
        self.registry.register_if_absent(pcollection_id, Arc::clone(&table_schema));
        TableWrite { table: self.table_identifier(pcollection_id), schema: table_schema, batch }
    }

    /// The table to be read for a collection, and its layout. A collection that
    /// was never written is not found.
    pub fn scan_collection(&self, req: &ScanCollectionRequest) -> (r: Result<
        TableScan,
        ElementStoreError,
    >)
        ensures
            ({
                let id = req.pcollection_id@;
                match r {
                    Ok(scan) => {
                        &&& self.registry.layouts().contains_key(id)
                        &&& *scan.schema == self.registry.layouts()[id]
                        &&& scan.table.database@ == self.db_name@
                        &&& scan.table.table@ == sanitized(id)
                    },
                    Err(e) => {
                        &&& !self.registry.layouts().contains_key(id)
                        &&& e matches ElementStoreError::NotFound(m)
                        &&& m@ == "table schema not found for pcollection"@
                    },
                }
            }),
    {
        let id = req.pcollection_id.as_str();
        match self.registry.get(id) {
            Some(schema) => Ok(TableScan { table: self.table_identifier(id), schema }),
            None => Err(
                ElementStoreError::NotFound("table schema not found for pcollection".to_string()),
            ),
        }
    }
}

impl TableScan {
    /// The records of the batches that were read, in order; or what is said of the first
    /// batch that cannot be read.
    pub fn records(&self, batches: &Vec<RecordBatch>) -> (r: Result<
        Vec<BeamRecord>,
        ElementStoreError,
    >)
        requires
            forall|i: int| 0 <= i < batches@.len() ==> (#[trigger] batches@[i]).wf(),
        ensures
            match r {
                Ok(records) => {
                    &&& forall|i: int|
                        0 <= i < batches@.len() ==> is_readable(
                            #[trigger] batches@[i],
                            self.schema.table_type,
                        )
                    &&& rows_of(batches@, self.schema.table_type) == Seq::new(
                        records@.len(),
                        |i: int| Some(record_model(records@[i])),
                    )
                },
                Err(e) => exists|i: int|
                    {
                        &&& 0 <= i < batches@.len()
                        &&& !is_readable(#[trigger] batches@[i], self.schema.table_type)
                        &&& forall|j: int|
                            0 <= j < i ==> is_readable(
                                #[trigger] batches@[j],
                                self.schema.table_type,
                            )
                        &&& tells_unreadable(batches@[i], self.schema.table_type, e)
                    },
            },
    {
        let ghost t = self.schema.table_type;
        let n: usize = batches.len();
        let mut records: Vec<BeamRecord> = Vec::new();
        let mut i: usize = 0;
        while i < n
            invariant
                n == batches@.len(),
                i <= n,
                t == self.schema.table_type,
                forall|i: int| 0 <= i < batches@.len() ==> (#[trigger] batches@[i]).wf(),
                forall|j: int| 0 <= j < i ==> is_readable(#[trigger] batches@[j], t),
                rows_of(batches@.take(i as int), t) == Seq::new(
                    records@.len(),
                    |j: int| Some(record_model(records@[j])),
                ),
            decreases n - i,
        {
            let ghost before = records@;
            match record_batch_to_beamrecords(&batches[i], &self.schema) {
                Ok(mut more) => {
                    let ghost added = more@;
                    records.append(&mut more);
                    proof {
                        let batch = batches@[i as int];
                        assert(records@ == before + added);
                        assert(batches@.take(i + 1).drop_last() =~= batches@.take(i as int));
                        assert(batches@.take(i + 1).last() == batch);
                        assert forall|k: int| 0 <= k < batch.rows implies (
                        #[trigger] row_record(batch, t, k)) is Some by {
                            assert(row_record(batch, t, k) == Some(record_model(added[k])));
                        }
                        assert(rows_of(batches@.take(i + 1), t) =~= Seq::new(
                            records@.len(),
                            |j: int| Some(record_model(records@[j])),
                        ));
                    }
                },
                Err(e) => {
                    assert(!is_readable(batches@[i as int], t));
                    return Err(e);
                },
            }
            i = i + 1;
        }
        assert(batches@.take(n as int) =~= batches@);
        Ok(records)
    }
}

// What a scan gives back.

/// Whether the batch holds these records, written in the layout.
pub open spec fn is_written(batch: RecordBatch, records: Seq<RecordV>, layout: LayoutV) -> bool {
    &&& batch_fault(records, layout) is None
    &&& batch.wf()
    &&& batch.schema.model() == layout.fields
    &&& columns_hold(batch.columns@, layout.table_type, records)
}

/// The records of some writes, in order.
pub open spec fn all_written(writes: Seq<Seq<RecordV>>) -> Seq<RecordV>
    decreases writes.len(),
{
    if writes.len() == 0 {
        Seq::empty()
    } else {
        all_written(writes.drop_last()) + writes.last()
    }
}

/// A scan of batches that were written to a collection one after the other gives the
/// records of all of them, in the order in which they were written. The layout is the
/// one that was derived from the first write, or from any other records.
pub proof fn scan_gives_all_writes(
    first: Seq<RecordV>,
    writes: Seq<Seq<RecordV>>,
    batches: Seq<RecordBatch>,
)
    requires
        layout_of(first) is Some,
        batches.len() == writes.len(),
        forall|i: int|
            0 <= i < writes.len() ==> is_written(
                #[trigger] batches[i],
                writes[i],
                layout_of(first)->Some_0,
            ),
    ensures
        ({
            let t = layout_of(first)->Some_0.table_type;
            &&& forall|i: int| 0 <= i < batches.len() ==> is_readable(#[trigger] batches[i], t)
            &&& rows_of(batches, t) == all_written(writes).map_values(|r: RecordV| Some(r))
        }),
    decreases writes.len(),
{
    let layout = layout_of(first)->Some_0;
    let t = layout.table_type;
    let all = all_written(writes).map_values(|r: RecordV| Some(r));
    if writes.len() == 0 {
        assert(rows_of(batches, t) =~= all);
    } else {
        let n = writes.len() - 1;
        let earlier = writes.drop_last();
        assert forall|i: int| 0 <= i < earlier.len() implies is_written(
            #[trigger] batches.drop_last()[i],
            earlier[i],
            layout,
        ) by {
            assert(is_written(batches[i], writes[i], layout));
        }
        scan_gives_all_writes(first, earlier, batches.drop_last());
        assert(is_written(batches[n], writes[n], layout));
        batch_round_trip(first, writes[n], batches[n]);
        assert forall|i: int| 0 <= i < batches.len() implies is_readable(
            #[trigger] batches[i],
            t,
        ) by {
            if i < n {
                assert(is_readable(batches.drop_last()[i], t));
            }
        }
        let last = Seq::new(batches[n].rows as nat, |i: int| row_record(batches[n], t, i));
        assert(last =~= writes[n].map_values(|r: RecordV| Some(r))) by {
            assert forall|i: int| 0 <= i < last.len() implies last[i] == Some(writes[n][i]) by {
                assert(row_record(batches[n], t, i) == Some(writes[n][i]));
            }
        }
        assert(all =~= all_written(earlier).map_values(|r: RecordV| Some(r)) + last);
    }
}

} // verus!
