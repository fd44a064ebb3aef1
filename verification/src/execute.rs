//! The outcome of a command that was run from the prompt.
use vstd::prelude::*;
use vstd::string::*;
use vstd::utf8::{decode_utf8, valid_utf8};

use crate::laws::law_output_is_accepted;
use crate::row::is_new_id;
use crate::state::{Editor, EditorView};
use crate::text::{trim_end, trimmed_end};

verus! {

/// The text that `String::from_utf8_lossy` makes of bytes.
pub uninterp spec fn lossy_text(bytes: Seq<u8>) -> Seq<char>;

/// `String::from_utf8_lossy`: the text that the bytes encode, what is no UTF-8 being replaced;
/// nothing is replaced in valid UTF-8.
#[verifier::external_body]
fn lossy_string(bytes: &Vec<u8>) -> (r: String)
    ensures
        r@ == lossy_text(bytes@),
        valid_utf8(bytes@) ==> r@ == decode_utf8(bytes@),
{
    String::from_utf8_lossy(bytes).to_string()
}

/// How a command ended.
pub enum CommandOutcome {
    /// It succeeded, with this output.
    Output(Vec<u8>),
    /// It failed, with this error output.
    Failed(Vec<u8>),
    /// It could not be run, for this reason.
    NotRun(String),
}

/// The identifiers of a new row and of a new character.
pub type Ids = (Seq<char>, Seq<char>);

/// All the identifiers are new ones.
pub open spec fn are_new_ids(ids: Seq<Ids>) -> bool {
    forall|i: int| 0 <= i < ids.len() ==> is_new_id((#[trigger] ids[i]).0) && is_new_id(ids[i].1)
}

impl EditorView {
    pub open spec fn output_byte_ok(self, c: u8) -> bool {
        if c == 0x0a {
            self.insert_new_line_ok()
        } else {
            self.insert_byte_ok()
        }
    }

    /// A byte of the output was inserted: a line feed begins a new row.
    pub open spec fn output_byte_inserted(self, c: u8, ids: Ids) -> EditorView {
        if c == 0x0a {
            self.new_line_inserted(ids.0)
        } else {
            self.byte_inserted(c, ids.0, ids.1)
        }
    }

    /// The output was inserted byte by byte, with the given identifiers.
    pub open spec fn output_inserted(self, output: Seq<u8>, ids: Seq<Ids>) -> EditorView
        decreases output.len(),
    {
        if output.len() == 0 {
            self
        } else {
            self.output_inserted(output.drop_last(), ids.drop_last()).output_byte_inserted(
                output.last(),
                ids.last(),
            )
        }
    }

    /// Each byte of the output can be inserted behind those before it.
    pub open spec fn output_ok(self, output: Seq<u8>) -> bool {
        forall|n: int, ids: Seq<Ids>|
            0 <= n < output.len() && ids.len() == n ==> (#[trigger] self.output_inserted(
                output.take(n),
                ids,
            )).output_byte_ok(output[n])
    }
}

impl Editor {
    /// Insert the output of a command at the current cursor position.
    pub fn insert_output(&mut self, output: &Vec<u8>)
        requires
            old(self).wf(),
            old(self)@.output_ok(output@),
        ensures
            final(self).wf(),
            exists|ids: Seq<Ids>|
                are_new_ids(ids) && ids.len() == output@.len() && final(self)@ == #[trigger] old(
                    self,
                )@.output_inserted(output@, ids),
    {
        let ghost s0 = self@;
        let ghost mut ids: Seq<Ids> = Seq::empty();
        let mut i: usize = 0;
        assert(self@ == s0.output_inserted(output@.take(0), ids));
        while i < output.len()
            invariant
                i <= output@.len(),
                ids.len() == i,
                are_new_ids(ids),
                self.wf(),
                s0.output_ok(output@),
                self@ == s0.output_inserted(output@.take(i as int), ids),
            decreases output@.len() - i,
        {
            let c = output[i];
            let ghost s = self@;
            let ghost id: Ids;
            if c == 0x0a {
                self.insert_new_line();
                proof {
                    let r = choose|row_id: Seq<char>|
                        is_new_id(row_id) && self@ == #[trigger] s.new_line_inserted(row_id);
                    id = (r, r);
                }
            } else {
                self.insert_byte(c);
                proof {
                    let (r, k) = choose|row_id: Seq<char>, id: Seq<char>|
                        is_new_id(row_id) && is_new_id(id) && self@ == #[trigger] s.byte_inserted(
                            c,
                            row_id,
                            id,
                        );
                    id = (r, k);
                }
            }
            proof {
                assert(self@ == s.output_byte_inserted(c, id));
                let more = output@.take(i + 1);
                assert(more.drop_last() =~= output@.take(i as int));
                assert(ids.push(id).drop_last() =~= ids);
                ids = ids.push(id);
            }
            i = i + 1;
        }
        assert(output@.take(i as int) =~= output@);
    }

    /// Whether the cursor is in the text and there is room for output of this length: then any
    /// output can be inserted.
    pub fn can_insert_output(&self, output: &Vec<u8>) -> (r: bool)
        requires
            self.wf(),
        ensures
            r == (self@.cursor_ok() && self@.room(output@.len(), output@.len())),
            r ==> self@.output_ok(output@),
    {
        let n = output.len();
        let in_text = match self.current_row() {
            Some(row) => self.cursor.x <= row.chars.len(),
            None => self.cursor.y == self.rows.len() && self.cursor.x == 0,
        };
        let r = in_text && self.has_room(n, n);
        proof {
            if r {
                law_output_is_accepted(self@, output@);
            }
        }
        r
    }

    /// Show why a command failed, given its error output as text.
    pub fn command_failed(&mut self, error: &str)
        requires
            old(self).wf(),
        ensures
            final(self).wf(),
            final(self)@ == old(self)@.with_status(trim_end(error@)),
    {
        self.set_status(trimmed_end(error));
    }

    /// Insert the output of a command, or show why there is none.
    pub fn finish_command(&mut self, outcome: CommandOutcome)
        requires
            old(self).wf(),
            outcome matches CommandOutcome::Output(output) ==> old(self)@.output_ok(output@),
        ensures
            final(self).wf(),
            match outcome {
                CommandOutcome::Output(output) => exists|ids: Seq<Ids>|
                    are_new_ids(ids) && ids.len() == output@.len() && final(self)@
                        == #[trigger] old(self)@.output_inserted(output@, ids),
                CommandOutcome::Failed(error) => final(self)@ == old(self)@.with_status(
                    trim_end(lossy_text(error@)),
                ) && (valid_utf8(error@) ==> final(self)@ == old(self)@.with_status(
                    trim_end(decode_utf8(error@)),
                )),
                CommandOutcome::NotRun(reason) => final(self)@ == old(self)@.with_status(reason@),
            },
    {
        match outcome {
            CommandOutcome::Output(output) => self.insert_output(&output),
            CommandOutcome::Failed(error) => self.command_failed(lossy_string(&error).as_str()),
            CommandOutcome::NotRun(reason) => self.set_status(reason),
        }
    }
}

} // verus!
