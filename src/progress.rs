//! How a catalog is written, and the progress events that the writing
//! reports.
use vstd::prelude::*;

verus! {

/// A progress event of the data-table writing.
#[derive(Debug, Clone, PartialEq, Eq)]
pub enum ProgressEvent {
    DataTableStart { index: usize, total: usize, table_name: String, keys: usize },
    DataTableEnd,
    DataWorkerTableStart { worker_id: usize, index: usize, total: usize, table_name: String, keys: usize },
    DataWorkerTableEnd { worker_id: usize, index: usize, total: usize },
    DataMergeTableStart { index: usize, total: usize, table_name: String },
    DataMergeTableEnd { index: usize, total: usize },
}

/// Where the catalog is built before it reaches its file.
#[derive(Debug, Clone, Copy, PartialEq, Eq, Structural)]
pub enum DbWriteMode {
    /// In memory, then copied into the destination file.
    InMemoryThenCopy,
    /// Directly in the destination file.
    Direct,
}

/// What a data writer reports of one of its tables.
#[derive(Debug, Clone, PartialEq, Eq)]
pub enum WorkerEvent {
    TableStarted { worker_id: usize, index: usize, total: usize, table_name: String, keys: usize },
    TableCompleted { worker_id: usize, index: usize, total: usize, table_name: String, keys: usize },
}

/// The coordinator's step on a writer's report, when `completed` of
/// `total_tables` tables are complete: a start is passed on as a writer
/// start; a completion is passed on as a writer end, then counted and
/// reported as the next completed table.
pub fn on_worker_event(completed: usize, total_tables: usize, event: WorkerEvent) -> (r: (usize, Vec<ProgressEvent>))
    requires
        completed < total_tables,
    ensures
        match event {
            WorkerEvent::TableStarted { worker_id, index, total, table_name, keys } => r.0 == completed && r.1@ == seq![
                ProgressEvent::DataWorkerTableStart { worker_id, index, total, table_name, keys },
            ],
            WorkerEvent::TableCompleted { worker_id, index, total, table_name, keys } => r.0 == completed + 1
                && r.1@ == seq![
                ProgressEvent::DataWorkerTableEnd { worker_id, index, total },
                ProgressEvent::DataTableStart { index: (completed + 1) as usize, total: total_tables, table_name, keys },
                ProgressEvent::DataTableEnd,
            ],
        },
{
    let mut out: Vec<ProgressEvent> = Vec::new();
    match event {
        WorkerEvent::TableStarted { worker_id, index, total, table_name, keys } => {
            out.push(ProgressEvent::DataWorkerTableStart { worker_id, index, total, table_name, keys });
            proof {
                assert(out@ =~= seq![
                    ProgressEvent::DataWorkerTableStart { worker_id, index, total, table_name, keys },
                ]);
            }
            (completed, out)
        },
        WorkerEvent::TableCompleted { worker_id, index, total, table_name, keys } => {
            let done = completed + 1;
            out.push(ProgressEvent::DataWorkerTableEnd { worker_id, index, total });
            out.push(ProgressEvent::DataTableStart { index: done, total: total_tables, table_name, keys });
            out.push(ProgressEvent::DataTableEnd);
            proof {
                assert(out@ =~= seq![
                    ProgressEvent::DataWorkerTableEnd { worker_id, index, total },
                    ProgressEvent::DataTableStart { index: done, total: total_tables, table_name, keys },
                    ProgressEvent::DataTableEnd,
                ]);
            }
            (done, out)
        },
    }
}

} // verus!
