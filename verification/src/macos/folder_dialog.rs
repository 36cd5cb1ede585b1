//! The native folder picker: one dialog at a time, each with a fresh
//! selection ID, and what its bounded output means.
use vstd::prelude::*;

use crate::plugin_services::secrets::{decimal, lemma_decimal_injective, push_decimal};
use crate::text::{chars_of, copy_string, str_equal, string_from_chars, utf8_len, utf8_within};

verus! {

/// Most bytes of dialog output accepted.
pub const MAX_DIALOG_OUTPUT: usize = 16384;

/// Where a folder selection stands.
#[derive(Debug, Clone, PartialEq, Eq)]
pub enum SelectionStatus {
    Selecting,
    Selected(String),
    Cancelled,
    Failed(String),
}

/// A folder selection as reported to the renderer.
#[derive(Debug, Clone, PartialEq, Eq)]
pub struct FolderSelection {
    pub selection_id: String,
    pub status: SelectionStatus,
}

/// What a finished dialog printed.
#[derive(Debug, Clone, PartialEq, Eq)]
pub enum DialogOutput {
    /// The dialog failed with this message.
    Failed(String),
    /// The user dismissed the dialog.
    Cancelled,
    /// The user chose this path, still to be resolved and checked.
    Chosen(String),
}

/// The dialog prompt for a locale: English by default.
pub open spec fn spec_prompt(locale: Option<Seq<char>>) -> Option<Seq<char>> {
    match locale {
        None => Some("Choose plugin folder"@),
        Some(l) => if l == "en"@ {
            Some("Choose plugin folder"@)
        } else if l == "zh"@ {
            Some("选择插件文件夹"@)
        } else {
            None
        },
    }
}

/// The dialog prompt for a locale; an unknown locale is refused.
pub fn prompt_for(locale: Option<&str>) -> (r: Result<&'static str, String>)
    ensures
        match spec_prompt(
            match locale {
                Some(l) => Some(l@),
                None => None,
            },
        ) {
            Some(p) => r matches Ok(s) && s@ == p,
            None => r matches Err(e) && e@ == "Unknown folder dialog locale"@,
        },
{
    match locale {
        None => Ok("Choose plugin folder"),
        Some(l) => if str_equal(l, "en") {
            Ok("Choose plugin folder")
        } else if str_equal(l, "zh") {
            Ok("选择插件文件夹")
        } else {
            Err("Unknown folder dialog locale".to_string())
        },
    }
}

/// The text without its trailing carriage returns and line feeds.
pub open spec fn trim_line_ends(s: Seq<char>) -> Seq<char>
    decreases s.len(),
{
    if s.len() > 0 && (s.last() == '\r' || s.last() == '\n') {
        trim_line_ends(s.drop_last())
    } else {
        s
    }
}

/// What a finished dialog's output means: more than 16 KiB is refused;
/// otherwise the output without trailing line ends is the failure message
/// of an unsuccessful dialog, nothing for a dismissed one, or the chosen
/// path.
pub fn dialog_output(success: bool, body: &str) -> (r: Result<DialogOutput, String>)
    ensures
        utf8_len(body@) > MAX_DIALOG_OUTPUT ==> (r matches Err(e) && e@ == "Folder selection exceeded its output limit"@),
        utf8_len(body@) <= MAX_DIALOG_OUTPUT ==> {
            let t = trim_line_ends(body@);
            if !success {
                r matches Ok(DialogOutput::Failed(m)) && m@ == t
            } else if t.len() == 0 {
                r matches Ok(DialogOutput::Cancelled)
            } else {
                r matches Ok(DialogOutput::Chosen(p)) && p@ == t
            }
        },
{
    let v = chars_of(body);
    if !utf8_within(v.as_slice(), MAX_DIALOG_OUTPUT) {
        return Err("Folder selection exceeded its output limit".to_string());
    }
    let mut n: usize = v.len();
    proof {
        assert(v@.take(v@.len() as int) =~= v@);
    }
    while n > 0 && (v[n - 1] == '\r' || v[n - 1] == '\n')
        invariant
            n <= v@.len(),
            trim_line_ends(v@) == trim_line_ends(v@.take(n as int)),
        decreases n,
    {
        proof {
            assert(v@.take(n as int).drop_last() =~= v@.take(n - 1));
        }
        n = n - 1;
    }
    proof {
        assert(v@.take(v@.len() as int) =~= v@);
    }
    let ghost full = v@;
    let mut w = v;
    w.truncate(n);
    let t = string_from_chars(w.as_slice());
    proof {
        assert(w@ =~= full.take(n as int));
        assert(trim_line_ends(full.take(n as int)) == full.take(n as int));
    }
    if !success {
        Ok(DialogOutput::Failed(t))
    } else if n == 0 {
        Ok(DialogOutput::Cancelled)
    } else {
        Ok(DialogOutput::Chosen(t))
    }
}

/// The selection ID of the `n`th dialog.
pub open spec fn selection_id(n: u64) -> Seq<char> {
    "folder-"@ + decimal(n as nat)
}

/// The picker: how many dialogs were opened, the latest selection, and
/// whether its dialog is still open.
#[derive(Debug)]
pub struct FolderPicker {
    next: u64,
    current: Option<FolderSelection>,
    dialog_open: bool,
}

/// Spec view of the picker.
pub struct PickerView {
    pub next: u64,
    pub current: Option<FolderSelection>,
    pub dialog_open: bool,
}

impl View for FolderPicker {
    type V = PickerView;

    closed spec fn view(&self) -> PickerView {
        PickerView { next: self.next, current: self.current, dialog_open: self.dialog_open }
    }
}

impl FolderPicker {
    #[verifier::type_invariant]
    spec fn inv(self) -> bool {
        self.dialog_open ==> self.current is Some
    }

    /// A picker that opened no dialog yet.
    pub fn new() -> (p: Self)
        ensures
            p@ == (PickerView { next: 0, current: None, dialog_open: false }),
    {
        FolderPicker { next: 0, current: None, dialog_open: false }
    }

    /// Checks a request to open a dialog: the locale must be known and no
    /// dialog open. Gives the prompt to show.
    pub fn begin(&self, locale: Option<&str>) -> (r: Result<&'static str, String>)
        ensures
            match spec_prompt(
                match locale {
                    Some(l) => Some(l@),
                    None => None,
                },
            ) {
                None => r matches Err(e) && e@ == "Unknown folder dialog locale"@,
                Some(p) => if self@.dialog_open {
                    r matches Err(e) && e@ == "A folder selection is already open"@
                } else {
                    r matches Ok(s) && s@ == p
                },
            },
    {
        let prompt = prompt_for(locale)?;
        if self.dialog_open {
            return Err("A folder selection is already open".to_string());
        }
        Ok(prompt)
    }

    /// The dialog was started: it gets the next selection ID and is the
    /// current selection, selecting.
    pub fn started(&mut self) -> (r: Result<FolderSelection, String>)
        ensures
            old(self)@.next == u64::MAX ==> (r matches Err(e) && e@ == "Folder selection counter exhausted"@)
                && final(self)@ == old(self)@,
            old(self)@.next < u64::MAX ==> {
                &&& final(self)@.next == old(self)@.next + 1
                &&& final(self)@.dialog_open
                &&& final(self)@.current == Some(r->Ok_0)
                &&& r matches Ok(sel) && sel.selection_id@ == selection_id(final(self)@.next) && sel.status
                    == SelectionStatus::Selecting
            },
    {
        proof {
            use_type_invariant(&*self);
        }
        if self.next == u64::MAX {
            return Err("Folder selection counter exhausted".to_string());
        }
        self.next = self.next + 1;
        let mut id: Vec<char> = chars_of("folder-");
        push_decimal(&mut id, self.next);
        proof {
            reveal_strlit("folder-");
        }
        let selection = FolderSelection { selection_id: string_from_chars(id.as_slice()), status: SelectionStatus::Selecting };
        self.current = Some(FolderSelection { selection_id: copy_string(&selection.selection_id), status: SelectionStatus::Selecting });
        self.dialog_open = true;
        Ok(selection)
    }

    /// Whether a dialog is still open.
    pub fn dialog_open(&self) -> (b: bool)
        ensures
            b == self@.dialog_open,
    {
        self.dialog_open
    }

    /// Refuses a question about a selection other than the current one.
    pub fn check_selection(&self, selection_id: &str) -> (r: Result<(), String>)
        ensures
            r is Ok <==> (self@.current matches Some(c) && c.selection_id@ == selection_id@),
            r matches Err(e) ==> e@ == "This folder selection is no longer available"@,
    {
        match &self.current {
            Some(c) => if str_equal(c.selection_id.as_str(), selection_id) {
                Ok(())
            } else {
                Err("This folder selection is no longer available".to_string())
            },
            None => Err("This folder selection is no longer available".to_string()),
        }
    }

    /// The current selection.
    pub fn current(&self) -> (r: Option<FolderSelection>)
        ensures
            r == self@.current,
    {
        match &self.current {
            Some(c) => Some(FolderSelection { selection_id: copy_string(&c.selection_id), status: copy_status(&c.status) }),
            None => None,
        }
    }

    /// The open dialog finished with `status`: it becomes the current
    /// selection's outcome and the dialog is closed.
    pub fn finished(&mut self, status: SelectionStatus) -> (r: FolderSelection)
        requires
            old(self)@.dialog_open,
        ensures
            final(self)@.next == old(self)@.next,
            !final(self)@.dialog_open,
            r.selection_id == old(self)@.current->0.selection_id,
            r.status == status,
            final(self)@.current == Some(r),
    {
        proof {
            use_type_invariant(&*self);
        }
        let id = match &self.current {
            Some(c) => copy_string(&c.selection_id),
            None => String::new(),
        };
        let selection = FolderSelection { selection_id: id, status };
        self.dialog_open = false;
        self.current = Some(FolderSelection {
            selection_id: copy_string(&selection.selection_id),
            status: copy_status(&selection.status),
        });
        selection
    }
}

fn copy_status(s: &SelectionStatus) -> (r: SelectionStatus)
    ensures
        r == *s,
{
    match s {
        SelectionStatus::Selecting => SelectionStatus::Selecting,
        SelectionStatus::Selected(p) => SelectionStatus::Selected(copy_string(p)),
        SelectionStatus::Cancelled => SelectionStatus::Cancelled,
        SelectionStatus::Failed(e) => SelectionStatus::Failed(copy_string(e)),
    }
}

/// Each started dialog gets a selection ID no earlier dialog had.
pub proof fn law_selection_ids_are_fresh(a: u64, b: u64)
    requires
        a < b,
    ensures
        selection_id(a) != selection_id(b),
{
    reveal_strlit("folder-");
    lemma_decimal_injective(a as nat, b as nat);
    assert(selection_id(a).subrange(7, selection_id(a).len() as int) =~= decimal(a as nat));
    assert(selection_id(b).subrange(7, selection_id(b).len() as int) =~= decimal(b as nat));
}

} // verus!
