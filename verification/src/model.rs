//! Record identity types: signatures, FormIDs and writable record snapshots.
use vstd::prelude::*;

verus! {

/// A four-byte record or subrecord signature, such as `DATA`.
#[derive(Clone, Copy, Debug, PartialEq, Eq)]
pub struct Signature(pub [u8; 4]);

/// A file-local FormID.
#[derive(Clone, Copy, Debug, PartialEq, Eq)]
pub struct FormId(pub u32);

/// A FormID qualified by the plugin that owns it.
#[derive(Clone, Debug, PartialEq, Eq)]
pub struct GlobalFormId {
    /// File name of the plugin that defines the object.
    pub plugin: String,
    /// Object identifier local to that plugin.
    pub object_id: FormId,
}

/// Identifier of one schema node.
#[derive(Clone, Copy, Debug, PartialEq, Eq)]
pub struct SchemaNodeId(pub u32);

/// One raw subrecord of a writable record.
pub struct WritableSubRecord {
    /// Subrecord signature.
    pub signature: Signature,
    /// Raw payload bytes.
    pub data: Vec<u8>,
}

/// A main record whose subrecords can be rewritten.
pub struct WritableRecord {
    /// Main-record signature.
    pub signature: Signature,
    /// Record header flags.
    pub flags: u32,
    /// File-local FormID.
    pub form_id: FormId,
    /// Record format version.
    pub form_version: u16,
    /// Subrecords in file order.
    pub subrecords: Vec<WritableSubRecord>,
}

/// Mathematical view of a subrecord: its signature and payload bytes.
pub struct SubRecordView {
    pub signature: Signature,
    pub data: Seq<u8>,
}

/// Mathematical view of a writable record.
pub struct RecordView {
    pub signature: Signature,
    pub flags: u32,
    pub form_id: FormId,
    pub form_version: u16,
    pub subrecords: Seq<SubRecordView>,
}

impl View for WritableSubRecord {
    type V = SubRecordView;

    open spec fn view(&self) -> SubRecordView {
        SubRecordView { signature: self.signature, data: self.data@ }
    }
}

impl View for WritableRecord {
    type V = RecordView;

    open spec fn view(&self) -> RecordView {
        RecordView {
            signature: self.signature,
            flags: self.flags,
            form_id: self.form_id,
            form_version: self.form_version,
            subrecords: self.subrecords@.map_values(|s: WritableSubRecord| s@),
        }
    }
}

/// Copies a writable subrecord, payload bytes included.
pub fn clone_subrecord(subrecord: &WritableSubRecord) -> (res: WritableSubRecord)
    ensures
        res@ == subrecord@,
{
    let data = subrecord.data.clone();
    assert(data@ =~= subrecord.data@);
    WritableSubRecord { signature: subrecord.signature, data }
}

/// Copies a writable record with all of its subrecords.
pub fn clone_record(record: &WritableRecord) -> (res: WritableRecord)
    ensures
        res@ == record@,
{
    let mut subrecords: Vec<WritableSubRecord> = Vec::new();
    let mut i: usize = 0;
    while i < record.subrecords.len()
        invariant
            i <= record.subrecords.len(),
            subrecords@.len() == i,
            forall|j: int| 0 <= j < i ==> (#[trigger] subrecords@[j])@ == record.subrecords@[j]@,
        decreases record.subrecords.len() - i,
    {
        let copy = clone_subrecord(&record.subrecords[i]);
        subrecords.push(copy);
        i += 1;
    }
    assert(subrecords@.map_values(|s: WritableSubRecord| s@) =~= record.subrecords@.map_values(
        |s: WritableSubRecord| s@,
    ));
    WritableRecord {
        signature: record.signature,
        flags: record.flags,
        form_id: record.form_id,
        form_version: record.form_version,
        subrecords,
    }
}

} // verus!
