use vstd::prelude::*;

verus! {

/// The mathematical content of a command record.
pub struct RecordView {
    pub output: Seq<char>,
    pub author_id: Seq<char>,
    pub invocation_count: nat,
}

impl RecordView {
    /// A record as first registered: nobody has invoked it yet.
    pub open spec fn fresh(output: Seq<char>, author_id: Seq<char>) -> RecordView {
        RecordView { output, author_id, invocation_count: 0 }
    }

    /// The same record after one more invocation.
    pub open spec fn fired(self) -> RecordView {
        RecordView { invocation_count: self.invocation_count + 1, ..self }
    }

    /// Whether an executable record can hold this value.
    pub open spec fn is_valid(self) -> bool {
        self.invocation_count <= usize::MAX
    }
}

/// A registered command: the reply it sends, who added it, and how often it fired.
pub struct CommandRecord {
    pub output: String,
    pub author_id: String,
    pub invocation_count: usize,
}

impl View for CommandRecord {
    type V = RecordView;

    open spec fn view(&self) -> RecordView {
        RecordView {
            output: self.output@,
            author_id: self.author_id@,
            invocation_count: self.invocation_count as nat,
        }
    }
}

impl CommandRecord {
    /// A new record with a zero invocation count.
    pub fn new(output: String, author_id: String) -> (r: CommandRecord)
        ensures
            r@ == RecordView::fresh(output@, author_id@),
    {
        CommandRecord { output, author_id, invocation_count: 0 }
    }

    /// Whether the counter can still be incremented.
    pub fn can_fire(&self) -> (r: bool)
        ensures
            r == (self.invocation_count < usize::MAX),
    {
        self.invocation_count < usize::MAX
    }

    /// Counts one invocation.
    pub fn fire(&mut self)
        requires
            old(self).invocation_count < usize::MAX,
        ensures
            final(self)@ == old(self)@.fired(),
    {
        self.invocation_count = self.invocation_count + 1;
    }

    /// An independent copy of this record.
    pub fn duplicate(&self) -> (r: CommandRecord)
        ensures
            r@ == self@,
    {
        CommandRecord {
            output: self.output.clone(),
            author_id: self.author_id.clone(),
            invocation_count: self.invocation_count,
        }
    }
}

} // verus!
