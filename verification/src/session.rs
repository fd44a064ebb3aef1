//! A session: from the start of the editor, key by key, to its end.
use vstd::prelude::*;
use vstd::string::*;

use crate::command::lemma_some_ids;
use crate::config::Config;
use crate::document::{document, law_document_round_trip, plain_rows, DocumentError};
use crate::cursor::minus;
use crate::exchange::{load_begun, Exchange, ExchangeView, Request, RequestView};
use crate::file::{are_lines, law_write_after_read, law_written_size, lines, row_bytes};
use crate::keys::Key;
use crate::remote::{
    parsed_url, remote_url, url_len_ok, url_view, Place, PlaceView, RemoteUrl, UrlView,
};
use crate::row::{fits, is_new_id, new_row, CharView, RowView};
use crate::rows::{lemma_all_rehighlighted, lemma_fits, lemma_total_same};
use crate::state::{
    countable, empty_editor, initial, total_bytes, AdapterReadyFor, Editor, EditorView, PromptView,
    HELP_MESSAGE,
};
use crate::step::{Step, StepView};
use crate::syntax::{Conf, ConfView, HlState};

verus! {

/// How a document is loaded.
pub enum LoadPlan {
    /// It is a file, which is to be read.
    File,
    /// It is remote: the exchange with the replicas begins.
    Exchange(Exchange, Request),
    /// It is remote, and the user is asked for a name first.
    NotReady,
}

/// How a document is saved.
pub enum SavePlan {
    /// It is a file, which is to be written.
    File,
    /// It is remote: the exchange with the replicas begins.
    Exchange(Exchange, Request),
    /// It is remote, and the user is asked for a name first: nothing is saved.
    NotReady,
}

pub enum PlanView {
    File,
    Exchange(ExchangeView, RequestView),
    NotReady,
}

impl View for LoadPlan {
    type V = PlanView;

    open spec fn view(&self) -> PlanView {
        match self {
            LoadPlan::File => PlanView::File,
            LoadPlan::Exchange(e, r) => PlanView::Exchange(e@, r@),
            LoadPlan::NotReady => PlanView::NotReady,
        }
    }
}

impl View for SavePlan {
    type V = PlanView;

    open spec fn view(&self) -> PlanView {
        match self {
            SavePlan::File => PlanView::File,
            SavePlan::Exchange(e, r) => PlanView::Exchange(e@, r@),
            SavePlan::NotReady => PlanView::NotReady,
        }
    }
}

/// How saving ended.
pub enum SaveOutcome {
    /// The text was saved, as what the string says.
    Saved(String),
    /// It could not be saved, for this reason.
    Failed(String),
    /// Nothing was saved, since the user is asked for a name first.
    NotReady,
}

pub enum SaveOutcomeView {
    Saved(Seq<char>),
    Failed(Seq<char>),
    NotReady,
}

impl View for SaveOutcome {
    type V = SaveOutcomeView;

    open spec fn view(&self) -> SaveOutcomeView {
        match self {
            SaveOutcome::Saved(written) => SaveOutcomeView::Saved(written@),
            SaveOutcome::Failed(reason) => SaveOutcomeView::Failed(reason@),
            SaveOutcome::NotReady => SaveOutcomeView::NotReady,
        }
    }
}

/// What was found when the syntax of a file was looked up.
pub open spec fn lookup_view(lookup: Result<Option<Conf>, String>) -> Result<
    Option<ConfView>,
    Seq<char>,
> {
    match lookup {
        Ok(Some(syntax)) => Ok(Some(syntax@)),
        Ok(None) => Ok(None),
        Err(reason) => Err(reason@),
    }
}

impl EditorView {
    /// The window has this many rows and columns. Two rows are for the status bar and the message
    /// bar.
    pub open spec fn window_resized(self, rows: usize, cols: usize) -> EditorView {
        EditorView {
            screen_rows: minus(rows as int, 2) as usize,
            window_width: cols,
            ..self
        }.screen_cols_updated()
    }

    /// The document of a URL, or of a file, is to be loaded.
    pub open spec fn load_planned(self, url: Option<UrlView>) -> (EditorView, PlanView) {
        let (s, place) = self.located(url, AdapterReadyFor::LOADING);
        (
            s,
            match place {
                PlaceView::File => PlanView::File,
                PlaceView::NotReady => PlanView::NotReady,
                PlaceView::Remote(u) => PlanView::Exchange(load_begun(u).0, load_begun(u).1),
            },
        )
    }

    /// The document of a URL, or of a file, is to be saved.
    pub open spec fn save_planned(self, url: Option<UrlView>) -> (EditorView, PlanView) {
        let (s, place) = self.located(url, AdapterReadyFor::SAVING);
        (
            s,
            match place {
                PlaceView::File => PlanView::File,
                PlaceView::NotReady => PlanView::NotReady,
                PlaceView::Remote(u) => PlanView::Exchange(s.save_begun(u).0, s.save_begun(u).1),
            },
        )
    }

    /// It is shown whether the text was saved; if it was, it is not modified any longer. Nothing
    /// is shown while the user is asked for a name.
    pub open spec fn save_handled(
        self,
        file_name: Seq<char>,
        outcome: SaveOutcomeView,
    ) -> EditorView {
        match outcome {
            SaveOutcomeView::Saved(written) => EditorView {
                dirty: false,
                ..self.with_status(written + " written to "@ + file_name)
            },
            SaveOutcomeView::Failed(reason) => self.with_status(
                "Can't save! I/O error: "@ + reason,
            ),
            SaveOutcomeView::NotReady => self,
        }
    }

    /// The text has a new name, and the syntax that belongs to it, if there is one.
    pub open spec fn saved_as(self, file_name: Seq<char>, syntax: Option<ConfView>) -> EditorView {
        EditorView {
            file_name: Some(file_name),
            syntax: match syntax {
                Some(s) => s,
                None => self.syntax,
            },
            ..self
        }.all_rows_updated()
    }

    /// The state after a text was to be saved under a new name, and whether the syntax could be
    /// looked up: a text that was not saved keeps its name and its syntax.
    pub open spec fn save_as_handled(
        self,
        file_name: Seq<char>,
        saved: bool,
        lookup: Result<Option<ConfView>, Seq<char>>,
    ) -> (EditorView, Result<(), Seq<char>>) {
        if !saved {
            (self, Ok(()))
        } else {
            match lookup {
                Ok(syntax) => (self.saved_as(file_name, syntax), Ok(())),
                Err(reason) => (self, Err(reason)),
            }
        }
    }

    /// The prompt is shown as the status message.
    pub open spec fn prompt_shown(self) -> EditorView {
        match self.prompt_mode {
            Some(mode) => self.with_status(mode.status()),
            None => self,
        }
    }

    /// The state at the end of a save: no prompt follows, unless the user is asked for a name.
    /// The prompts for that go on with the name that the text has; a save under another name is
    /// not gone on with.
    pub open spec fn save_ended(self, file_name: Seq<char>, outcome: SaveOutcomeView) -> EditorView {
        if outcome is NotReady && self.file_name == Some(file_name) {
            self
        } else if outcome is NotReady {
            self.without_prompt().with_status("No username"@)
        } else {
            self.without_prompt()
        }
    }

    pub open spec fn without_prompt(self) -> EditorView {
        EditorView { prompt_mode: None, ..self }
    }

    /// The state after a key, in prompt mode or not, and what the key asks for. The prompt mode to
    /// switch to is part of the state.
    pub open spec fn key_handled(
        self,
        key: Key,
        row_id: Seq<char>,
        id: Seq<char>,
        copy: Seq<CharView>,
    ) -> (EditorView, StepView) {
        let s = self.without_prompt();
        let (after, step) = match self.prompt_mode {
            None => s.key_processed(key, row_id, id, copy),
            Some(mode) => s.prompt_processed(mode, key),
        };
        match step {
            StepView::Prompt(mode) => (
                EditorView { prompt_mode: mode, ..after },
                StepView::Prompt(None),
            ),
            _ => (after.without_prompt(), step),
        }
    }

    /// The key can be processed.
    pub open spec fn handle_ok(self, key: Key) -> bool {
        match self.prompt_mode {
            None => self.key_ok(key),
            Some(mode) => self.prompt_ok(mode, key),
        }
    }
}

/// The state of a new editor.
pub open spec fn started(config: Config, rows: usize, cols: usize) -> EditorView {
    EditorView { quit_times: config.quit_times, ..initial(config) }.window_resized(
        rows,
        cols,
    ).with_status(HELP_MESSAGE@)
}

impl Editor {
    /// Initialize the text editor, for a window with this many rows and columns.
    pub fn new(config: Config, rows: usize, cols: usize) -> (r: Editor)
        ensures
            fits(0, config.tab_stop as nat) ==> r.wf(),
            r@ == started(config, rows, cols),
    {
        let mut editor = empty_editor(config);
        editor.quit_times = editor.config.quit_times;
        editor.set_window_size(rows, cols);
        editor.set_status(HELP_MESSAGE.to_string());
        editor
    }

    /// Update the `screen_rows`, `window_width`, `screen_cols` and `ln_padding` attributes.
    pub fn set_window_size(&mut self, rows: usize, cols: usize)
        requires
            old(self).rows@.len() + 32 <= usize::MAX,
        ensures
            old(self).wf() ==> final(self).wf(),
            final(self)@ == old(self)@.window_resized(rows, cols),
            final(self).rows == old(self).rows,
    {
        self.screen_rows = rows.saturating_sub(2);  // Make room for the status bar and status message
        self.window_width = cols;
        self.update_screen_cols();
    }

    /// The text has no name: it begins with one empty row.
    pub fn open_unnamed(&mut self)
        requires
            old(self).wf(),
            old(self)@.room(0, 1),
        ensures
            final(self).wf(),
            exists|id: Seq<char>|
                is_new_id(id) && final(self)@ == (EditorView {
                    file_name: None,
                    ..old(self)@.with_rows(
                        old(self)@.rows.push(#[trigger] new_row(id, Seq::empty())),
                    )
                }),
    {
        let ghost s0 = self@;
        self.push_empty_row();
        let ghost id = choose|id: Seq<char>|
            is_new_id(id) && self@ == s0.with_rows(
                s0.rows.push(#[trigger] new_row(id, Seq::empty())),
            );
        self.file_name = None;
        assert(self@ == (EditorView {
            file_name: None,
            ..s0.with_rows(s0.rows.push(new_row(id, Seq::empty())))
        }));
    }

    /// The document that is loaded from a URL, or from a file.
    pub fn plan_load(&mut self, url: Option<RemoteUrl>) -> (r: LoadPlan)
        ensures
            (final(self)@, r@) == old(self)@.load_planned(url_view(url)),
            final(self).rows == old(self).rows,
    {
        match self.locate(url, AdapterReadyFor::LOADING) {
            Place::File => LoadPlan::File,
            Place::NotReady => LoadPlan::NotReady,
            Place::Remote(u) => {
                let (exchange, request) = Editor::begin_load(u);
                LoadPlan::Exchange(exchange, request)
            },
        }
    }

    /// Try to load a file or a remote document, given its name.
    pub fn load(&mut self, path: &str) -> (r: LoadPlan)
        requires
            url_len_ok(path@),
        ensures
            (final(self)@, r@) == old(self)@.load_planned(parsed_url(path@)),
            final(self).rows == old(self).rows,
    {
        self.plan_load(remote_url(path))
    }

    /// The document that is saved under a URL, or to a file.
    pub fn plan_save(&mut self, url: Option<RemoteUrl>) -> (r: SavePlan)
        ensures
            (final(self)@, r@) == old(self)@.save_planned(url_view(url)),
            final(self).rows == old(self).rows,
    {
        match self.locate(url, AdapterReadyFor::SAVING) {
            Place::File => SavePlan::File,
            Place::NotReady => SavePlan::NotReady,
            Place::Remote(u) => {
                let (exchange, request) = self.begin_save(u);
                SavePlan::Exchange(exchange, request)
            },
        }
    }

    /// Save the text to a file or to a remote document, given its name.
    pub fn save(&mut self, file_name: &str) -> (r: SavePlan)
        requires
            url_len_ok(file_name@),
        ensures
            (final(self)@, r@) == old(self)@.save_planned(parsed_url(file_name@)),
            final(self).rows == old(self).rows,
    {
        self.plan_save(remote_url(file_name))
    }

    /// Handle all errors of saving to a file, given how it ended. Errors and success messages will be printed to the status
    /// bar. Return whether the file was successfully saved.
    pub fn save_and_handle_io_errors(
        &mut self,
        file_name: &str,
        outcome: &SaveOutcome,
    ) -> (r: bool)
        ensures
            final(self)@ == old(self)@.save_handled(file_name@, outcome@),
            final(self).rows == old(self).rows,
            r == (outcome@ is Saved),
    {
        // Print error or success message to the status bar
        match outcome {
            SaveOutcome::Saved(written) => {
                let mut msg = written.clone();
                msg.append(" written to ");
                msg.append(file_name);
                self.set_status(msg);
                // If save was successful, set dirty to false.
                self.dirty = false;
                true
            },
            SaveOutcome::Failed(reason) => {
                let mut msg = "Can't save! I/O error: ".to_string();
                msg.append(reason.as_str());
                self.set_status(msg);
                false
            },
            SaveOutcome::NotReady => false,
        }
    }

    /// Save to a file after obtaining the file path from the prompt: given whether that was
    /// successful, and the syntax that was found for the name. If successful, the `file_name`
    /// attribute of the editor will be set and syntax highlighting will be updated.
    pub fn save_as(
        &mut self,
        file_name: String,
        saved: bool,
        lookup: Result<Option<Conf>, String>,
    ) -> (r: Result<(), String>)
        requires
            old(self).wf(),
        ensures
            final(self).wf(),
            final(self)@ == old(self)@.save_as_handled(
                file_name@,
                saved,
                lookup_view(lookup),
            ).0,
            match r {
                Ok(_) => old(self)@.save_as_handled(file_name@, saved, lookup_view(lookup)).1 is Ok,
                Err(reason) => old(self)@.save_as_handled(
                    file_name@,
                    saved,
                    lookup_view(lookup),
                ).1 == Err::<(), Seq<char>>(reason@),
            },
    {
        if saved {
            // If save was successful
            match lookup {
                Ok(Some(s)) => {
                    self.syntax = s;
                },
                Ok(None) => {},
                Err(reason) => {
                    return Err(reason);
                },
            }
            self.file_name = Some(file_name);
            self.update_all_rows();
        }
        Ok(())
    }

    /// In prompt mode, show the prompt.
    pub fn show_prompt(&mut self)
        ensures
            final(self)@ == old(self)@.prompt_shown(),
            final(self).rows == old(self).rows,
    {
        if let Some(mode) = &self.prompt_mode {
            let msg = mode.status_msg();
            self.set_status(msg);
        }
    }

    /// Whether `run` can be called with this key.
    pub fn can_run(&self, key: &Key) -> (r: bool)
        requires
            self.wf(),
        ensures
            r == self@.handle_ok(*key),
    {
        match &self.prompt_mode {
            None => self.accepts(key),
            Some(mode) => mode.accepts(self, key),
        }
    }

    /// Run the text editor for one key. Returns what is to be done outside before the next key.
    pub fn run(&mut self, key: &Key) -> (r: Step)
        requires
            old(self).wf(),
            old(self)@.handle_ok(*key),
        ensures
            final(self).wf(),
            exists|row_id: Seq<char>, id: Seq<char>, copy: Seq<CharView>|
                old(self)@.new_ids(row_id, id, copy) && (final(self)@, r@) == #[trigger] old(
                    self,
                )@.key_handled(*key, row_id, id, copy),
    {
        let ghost s0 = self@;
        let ghost mut row_id: Seq<char>;
        let ghost mut id: Seq<char>;
        let ghost mut copy: Seq<CharView>;
        proof {
            let ids = lemma_some_ids(s0);
            row_id = ids.0;
            id = ids.1;
            copy = ids.2;
        }
        let prompt_mode = self.prompt_mode.take();
        let ghost s = self@;
        assert(s == s0.without_prompt());
        let step = match prompt_mode {
            None => {
                let step = self.process_keypress(key);
                proof {
                    let (r, i, c) = choose|row_id: Seq<char>, id: Seq<char>, copy: Seq<CharView>|
                        s.new_ids(row_id, id, copy) && (self@, step@) == #[trigger] s.key_processed(
                            *key,
                            row_id,
                            id,
                            copy,
                        );
                    row_id = r;
                    id = i;
                    copy = c;
                }
                step
            },
            Some(mode) => mode.process_keypress(self, key),
        };
        let r = match step {
            Step::Prompt(mode) => {
                self.prompt_mode = mode;
                Step::Prompt(None)
            },
            other => {
                self.prompt_mode = None;
                other
            },
        };
        assert((self@, r@) == s0.key_handled(*key, row_id, id, copy));
        r
    }

    /// A save has ended: no prompt follows it, unless the user is asked for a name.
    pub fn end_save(&mut self, file_name: &String, outcome: &SaveOutcome)
        ensures
            final(self)@ == old(self)@.save_ended(file_name@, outcome@),
            final(self).rows == old(self).rows,
    {
        if let SaveOutcome::NotReady = outcome {
            let same_name = match &self.file_name {
                Some(name) => *name == *file_name,
                None => false,
            };
            if !same_name {
                self.prompt_mode = None;
                self.set_status("No username".to_string());
            }
        } else {
            self.prompt_mode = None;
        }
    }

    /// What a key asked for was done: no prompt follows it.
    pub fn end_step(&mut self)
        ensures
            final(self)@ == old(self)@.without_prompt(),
            final(self).rows == old(self).rows,
    {
        self.prompt_mode = None;
    }
}

/// Loading a file into an empty editor and saving it gives back the same bytes.
pub proof fn law_file_round_trip(s: EditorView, bytes: Seq<u8>, rows: Seq<RowView>)
    requires
        s.rows.len() == 0,
        are_lines(rows, lines(bytes)),
    ensures
        s.rows_loaded(s.rows + rows).text() == lines(bytes),
        s.rows_loaded(s.rows + rows).contents() == bytes,
{
    assert(s.rows + rows =~= rows);
    law_loaded_text(s, rows);
    law_write_after_read(bytes);
}

/// Loading rows gives their lines.
pub proof fn law_loaded_text(s: EditorView, rows: Seq<RowView>)
    ensures
        s.rows_loaded(rows).text() == row_bytes(rows),
{
    lemma_all_rehighlighted(rows, s.syntax, 0, HlState::Normal);
    let t = s.rows_loaded(rows);
    assert forall|i: int| 0 <= i < rows.len() implies row_bytes(t.rows)[i] == row_bytes(rows)[i] by {
        assert(t.rows[i] == rows[i].with_state(t.rows[i].hl_state));
    }
    assert(t.text() =~= row_bytes(rows));
}

/// Any editor that reads the document of any rows has these rows: the same bytes under the same
/// identifiers in the same order. The columns must be countable with the reader's tab stops.
pub proof fn law_document_gives_text_back(s: EditorView, rows: Seq<RowView>)
    requires
        countable(total_bytes(rows), rows.len(), s.tab()),
    ensures
        ({
            let (t, total) = s.deserialized(Ok(document(rows)));
            &&& t.text() == row_bytes(rows)
            &&& t.n_bytes == total_bytes(rows)
            &&& total == Ok::<nat, DocumentError>(total_bytes(rows))
            &&& t.rows.len() == rows.len()
            &&& forall|i: int|
                0 <= i < rows.len() ==> (#[trigger] t.rows[i]).uuid == rows[i].uuid
                    && t.rows[i].chars == rows[i].chars
        }),
{
    law_document_round_trip(rows);
    let plain = plain_rows(rows);
    lemma_total_same(plain, rows);
    lemma_fits(0, total_bytes(rows), s.tab());
    assert(row_bytes(plain) =~= row_bytes(rows));
    law_loaded_text(s, plain);
    lemma_all_rehighlighted(plain, s.syntax, 0, HlState::Normal);
    let t = s.rows_loaded(plain);
    assert forall|i: int| 0 <= i < rows.len() implies (#[trigger] t.rows[i]).uuid == rows[i].uuid
        && t.rows[i].chars == rows[i].chars by {
        assert(t.rows[i] == plain[i].with_state(t.rows[i].hl_state));
    }
}

/// A document that could not be read leaves the text as it is, and the reason is shown.
pub proof fn law_unread_document_keeps_text(s: EditorView, reason: Seq<char>)
    ensures
        ({
            let (t, total) = s.deserialized(Err(reason));
            &&& t == s.with_status("Error: "@ + reason)
            &&& t.rows == s.rows && t.n_bytes == s.n_bytes
            &&& total == Ok::<nat, DocumentError>(0)
        }),
{
}

/// The size that is shown is the number of bytes that are written to a file.
pub proof fn law_shown_size(s: EditorView)
    requires
        s.wf(),
    ensures
        s.text_size() == s.contents().len(),
{
    law_written_size(s.rows);
}

/// A text is not modified any longer once it was saved, and stays modified if it was not: if
/// saving failed, or if the user has to give a name first, which shows nothing.
pub proof fn law_saved_text_is_unmodified(
    s: EditorView,
    file_name: Seq<char>,
    outcome: SaveOutcomeView,
)
    ensures
        s.save_handled(file_name, outcome).dirty == (s.dirty && !(outcome is Saved)),
        s.save_handled(file_name, outcome).rows == s.rows,
        outcome is NotReady ==> s.save_handled(file_name, outcome) == s,
{
}

/// A document that the user has to give a name for is not saved: it stays modified, and the
/// changes are staged once the name is known.
pub proof fn law_unready_save_loses_nothing(s: EditorView, u: UrlView, username: Seq<char>)
    requires
        s.dirty,
        !s.adapter_ready(u),
    ensures
        ({
            let (t, plan) = s.save_planned(Some(u));
            let named = EditorView { username: Some(username), ..t };
            &&& plan is NotReady
            &&& t.prompt_mode == Some(PromptView::Username(Seq::empty()))
            &&& t.dirty && t.rows == s.rows
            &&& named.save_planned(Some(u)).1 == PlanView::Exchange(
                ExchangeView::SaveUpdate(u),
                RequestView::Update(document(s.rows)),
            )
        }),
{
}

/// A user who has to give a name for a document that is saved is asked for it: the prompt is still
/// there when the save has ended.
pub proof fn law_user_is_asked(s: EditorView, u: UrlView, file_name: Seq<char>)
    requires
        !s.adapter_ready(u),
        s.file_name == Some(file_name),
    ensures
        ({
            let t = s.save_planned(Some(u)).0.save_handled(file_name, SaveOutcomeView::NotReady);
            t.save_ended(file_name, SaveOutcomeView::NotReady).prompt_mode == Some(
                PromptView::Username(Seq::empty()),
            )
        }),
{
}

} // verus!
