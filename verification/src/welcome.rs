//! The welcome form: nickname, room mode, and ticket entry, with
//! validation. The surrounding binary runs the redraw loop and feeds key
//! presses in; every decision the form makes lives here.

use vstd::prelude::*;
use vstd::utf8::encode_utf8;
use crate::keys::Key;
use crate::keys::KeyPress;
use crate::strutil::chars_to_string;
use crate::strutil::trim_spec;
use crate::strutil::trimmed_chars;
use crate::ticket::ticket_text_parse;
use crate::ticket::ChatTicket;

verus! {

/// Which form field has keyboard focus.
#[derive(Debug, Clone, Copy, PartialEq, Eq, Structural)]
pub enum WelcomeField {
    Name,
    Mode,
    Ticket,
}

/// Whether the user creates a new room or joins an existing one.
#[derive(Debug, Clone, Copy, PartialEq, Eq, Structural)]
pub enum RoomMode {
    Create,
    Join,
}

/// All mutable state of the welcome form.
#[derive(Debug)]
pub struct WelcomeState {
    pub field: WelcomeField,
    pub name: Vec<char>,
    pub name_cursor: usize,
    pub mode: RoomMode,
    pub ticket: Vec<char>,
    pub ticket_cursor: usize,
    /// The last validation error, cleared on the next key press.
    pub error: Option<String>,
    pub should_quit: bool,
}

/// What the welcome screen hands back to the caller.
#[derive(Debug)]
pub enum WelcomeResult {
    Create { nickname: String },
    Join { nickname: String, ticket: String },
}

/// The field after `field` in tab order; in create mode the ticket field
/// is skipped.
pub open spec fn next_field_spec(field: WelcomeField, mode: RoomMode) -> WelcomeField {
    match field {
        WelcomeField::Name => WelcomeField::Mode,
        WelcomeField::Mode => {
            if mode is Join {
                WelcomeField::Ticket
            } else {
                WelcomeField::Name
            }
        },
        WelcomeField::Ticket => WelcomeField::Name,
    }
}

/// The field before `field` in tab order.
pub open spec fn prev_field_spec(field: WelcomeField, mode: RoomMode) -> WelcomeField {
    match field {
        WelcomeField::Name => {
            if mode is Join {
                WelcomeField::Ticket
            } else {
                WelcomeField::Mode
            }
        },
        WelcomeField::Mode => WelcomeField::Name,
        WelcomeField::Ticket => WelcomeField::Mode,
    }
}

/// The edit buffer and cursor after one key press: printable characters
/// insert at the cursor, backspace deletes before it, the arrows move it,
/// anything else changes nothing.
pub open spec fn text_input_spec(text: Seq<char>, cursor: int, key: KeyPress) -> (Seq<char>, int)
    recommends
        0 <= cursor <= text.len(),
{
    match key.code {
        Key::Char(c) => {
            if text.len() < usize::MAX {
                (text.insert(cursor, c), cursor + 1)
            } else {
                (text, cursor)
            }
        },
        Key::Backspace => {
            if cursor > 0 {
                (text.remove(cursor - 1), cursor - 1)
            } else {
                (text, cursor)
            }
        },
        Key::Left => (text, if cursor > 0 {
            cursor - 1
        } else {
            0
        }),
        Key::Right => (text, if cursor < text.len() {
            cursor + 1
        } else {
            cursor
        }),
        _ => (text, cursor),
    }
}

/// Apply one key press to a single-line edit field.
pub fn handle_text_input(text: &mut Vec<char>, cursor: &mut usize, key: KeyPress)
    requires
        *old(cursor) <= old(text)@.len(),
    ensures
        (final(text)@, *final(cursor) as int) == text_input_spec(
            old(text)@,
            *old(cursor) as int,
            key,
        ),
        *final(cursor) <= final(text)@.len(),
{
    match key.code {
        Key::Char(c) => {
            if text.len() < usize::MAX {
                text.insert(*cursor, c);
                *cursor += 1;
            }
        },
        Key::Backspace => {
            if *cursor > 0 {
                *cursor -= 1;
                text.remove(*cursor);
            }
        },
        Key::Left => {
            if *cursor > 0 {
                *cursor -= 1;
            }
        },
        Key::Right => {
            if *cursor < text.len() {
                *cursor += 1;
            }
        },
        _ => {},
    }
}

/// Whether the trimmed ticket text parses as a ticket.
pub open spec fn ticket_valid(ticket: Seq<char>) -> bool {
    ticket_text_parse(encode_utf8(trim_spec(ticket))) is Ok
}

impl WelcomeState {
    /// The form's invariant: each cursor stays inside its field.
    pub open spec fn wf(&self) -> bool {
        &&& self.name_cursor <= self.name@.len()
        &&& self.ticket_cursor <= self.ticket@.len()
    }

    /// A fresh form: name field focused, create mode, everything empty.
    pub fn new() -> (r: Self)
        ensures
            r.wf(),
            r.field is Name,
            r.name@.len() == 0,
            r.name_cursor == 0,
            r.mode is Create,
            r.ticket@.len() == 0,
            r.ticket_cursor == 0,
            r.error is None,
            !r.should_quit,
    {
        WelcomeState {
            field: WelcomeField::Name,
            name: Vec::new(),
            name_cursor: 0,
            mode: RoomMode::Create,
            ticket: Vec::new(),
            ticket_cursor: 0,
            error: None,
            should_quit: false,
        }
    }

    /// Cycle focus to the next form field.
    pub fn next_field(&mut self)
        ensures
            *final(self) == (WelcomeState {
                field: next_field_spec(old(self).field, old(self).mode),
                ..*old(self)
            }),
    {
        self.field = match self.field {
            WelcomeField::Name => WelcomeField::Mode,
            WelcomeField::Mode => {
                if self.mode == RoomMode::Join {
                    WelcomeField::Ticket
                } else {
                    WelcomeField::Name
                }
            },
            WelcomeField::Ticket => WelcomeField::Name,
        };
    }

    /// Cycle focus to the previous form field.
    pub fn prev_field(&mut self)
        ensures
            *final(self) == (WelcomeState {
                field: prev_field_spec(old(self).field, old(self).mode),
                ..*old(self)
            }),
    {
        self.field = match self.field {
            WelcomeField::Name => {
                if self.mode == RoomMode::Join {
                    WelcomeField::Ticket
                } else {
                    WelcomeField::Mode
                }
            },
            WelcomeField::Mode => WelcomeField::Name,
            WelcomeField::Ticket => WelcomeField::Mode,
        };
    }

    /// Whether the form as typed passes validation on submit.
    pub open spec fn submit_ok(&self) -> bool {
        &&& trim_spec(self.name@).len() > 0
        &&& (self.mode is Join ==> trim_spec(self.ticket@).len() > 0 && ticket_valid(self.ticket@))
    }

    /// Handle one key press: quit, move focus, submit with validation, or
    /// edit the focused field. Any press clears the previous error; Enter
    /// sets one exactly when validation fails.
    pub fn handle_key(&mut self, key: KeyPress)
        requires
            old(self).wf(),
        ensures
            final(self).wf(),
            match key.code {
                Key::Esc => *final(self) == (WelcomeState {
                    error: None,
                    should_quit: true,
                    ..*old(self)
                }),
                Key::Tab => *final(self) == (WelcomeState {
                    error: None,
                    field: if key.shift {
                        prev_field_spec(old(self).field, old(self).mode)
                    } else {
                        next_field_spec(old(self).field, old(self).mode)
                    },
                    ..*old(self)
                }),
                Key::BackTab => *final(self) == (WelcomeState {
                    error: None,
                    field: prev_field_spec(old(self).field, old(self).mode),
                    ..*old(self)
                }),
                Key::Down => *final(self) == (WelcomeState {
                    error: None,
                    field: next_field_spec(old(self).field, old(self).mode),
                    ..*old(self)
                }),
                Key::Up => *final(self) == (WelcomeState {
                    error: None,
                    field: prev_field_spec(old(self).field, old(self).mode),
                    ..*old(self)
                }),
                Key::Enter => {
                    &&& *final(self) == (WelcomeState {
                        error: final(self).error,
                        ..*old(self)
                    })
                    &&& (trim_spec(old(self).name@).len() == 0 ==> (final(self).error matches Some(
                        e,
                    ) && e@ == "Name cannot be empty"@))
                    &&& (trim_spec(old(self).name@).len() > 0 && old(self).mode is Join
                        && trim_spec(old(self).ticket@).len() == 0
                        ==> (final(self).error matches Some(e)
                            && e@ == "Ticket is required to join"@))
                    &&& (trim_spec(old(self).name@).len() > 0 && old(self).mode is Join
                        && trim_spec(old(self).ticket@).len() > 0 && !ticket_valid(
                        old(self).ticket@,
                    ) ==> (final(self).error matches Some(e) && e@ == "Invalid ticket format"@))
                    &&& (old(self).submit_ok() ==> final(self).error is None)
                },
                _ => {
                    match old(self).field {
                        WelcomeField::Name => {
                            &&& *final(self) == (WelcomeState {
                                error: None,
                                name: final(self).name,
                                name_cursor: final(self).name_cursor,
                                ..*old(self)
                            })
                            &&& (final(self).name@, final(self).name_cursor as int)
                                == text_input_spec(
                                old(self).name@,
                                old(self).name_cursor as int,
                                key,
                            )
                        },
                        WelcomeField::Mode => {
                            &&& *final(self) == (WelcomeState {
                                error: None,
                                mode: final(self).mode,
                                field: final(self).field,
                                ..*old(self)
                            })
                            &&& (match key.code {
                                Key::Left | Key::Right | Key::Char('h') | Key::Char('l') => {
                                    &&& final(self).mode == (if old(self).mode is Create {
                                        RoomMode::Join
                                    } else {
                                        RoomMode::Create
                                    })
                                    &&& final(self).field == (if final(self).mode is Create && old(self).field is Ticket {
                                        WelcomeField::Mode
                                    } else {
                                        old(self).field
                                    })
                                },
                                _ => final(self).mode == old(self).mode && final(self).field == old(self).field,
                            })
                        },
                        WelcomeField::Ticket => {
                            &&& *final(self) == (WelcomeState {
                                error: None,
                                ticket: final(self).ticket,
                                ticket_cursor: final(self).ticket_cursor,
                                ..*old(self)
                            })
                            &&& (if old(self).mode is Join {
                                (final(self).ticket@, final(self).ticket_cursor as int)
                                    == text_input_spec(
                                    old(self).ticket@,
                                    old(self).ticket_cursor as int,
                                    key,
                                )
                            } else {
                                final(self).ticket == old(self).ticket && final(self).ticket_cursor
                                    == old(self).ticket_cursor
                            })
                        },
                    }
                },
            },
    {
        self.error = None;
        match key.code {
            Key::Esc => {
                self.should_quit = true;
            },
            Key::Tab => {
                if key.shift {
                    self.prev_field();
                } else {
                    self.next_field();
                }
            },
            Key::Down => {
                self.next_field();
            },
            Key::Up => {
                self.prev_field();
            },
            Key::BackTab => {
                self.prev_field();
            },
            Key::Enter => {
                let name_trim = trimmed_chars(&self.name);
                if name_trim.len() == 0 {
                    self.error = Some(name_empty_error());
                    return ;
                }
                if self.mode == RoomMode::Join {
                    let ticket_trim = trimmed_chars(&self.ticket);
                    if ticket_trim.len() == 0 {
                        self.error = Some(ticket_missing_error());
                        return ;
                    }
                    let ticket_str = chars_to_string(&ticket_trim);
                    if ChatTicket::deserialize(ticket_str.as_str()).is_err() {
                        self.error = Some(ticket_invalid_error());
                    }
                }
            },
            _ => {
                match self.field {
                    WelcomeField::Name => {
                        let mut cur = self.name_cursor;
                        handle_text_input(&mut self.name, &mut cur, key);
                        self.name_cursor = cur;
                    },
                    WelcomeField::Mode => {
                        match key.code {
                            Key::Left | Key::Right | Key::Char('h') | Key::Char('l') => {
                                self.mode = match self.mode {
                                    RoomMode::Create => RoomMode::Join,
                                    RoomMode::Join => RoomMode::Create,
                                };
                                if self.mode == RoomMode::Create && self.field
                                    == WelcomeField::Ticket {
                                    self.field = WelcomeField::Mode;
                                }
                            },
                            _ => {},
                        }
                    },
                    WelcomeField::Ticket => {
                        if self.mode == RoomMode::Join {
                            let mut cur = self.ticket_cursor;
                            handle_text_input(&mut self.ticket, &mut cur, key);
                            self.ticket_cursor = cur;
                        }
                    },
                }
            },
        }
    }

    /// The submission the form stands for: the trimmed nickname, and in
    /// join mode also the trimmed ticket text.
    pub fn submit(&self) -> (r: WelcomeResult)
        ensures
            match r {
                WelcomeResult::Create { nickname } => self.mode is Create && nickname@ == trim_spec(
                    self.name@,
                ),
                WelcomeResult::Join { nickname, ticket } => self.mode is Join && nickname@
                    == trim_spec(self.name@) && ticket@ == trim_spec(self.ticket@),
            },
    {
        let nickname = chars_to_string(&trimmed_chars(&self.name));
        match self.mode {
            RoomMode::Create => WelcomeResult::Create { nickname },
            RoomMode::Join => WelcomeResult::Join {
                nickname,
                ticket: chars_to_string(&trimmed_chars(&self.ticket)),
            },
        }
    }
}

/// The error shown when the name is empty.
fn name_empty_error() -> (r: String)
    ensures
        r@ == "Name cannot be empty"@,
{
    let s = "Name cannot be empty";
    s.to_owned()
}

/// The error shown when join mode lacks a ticket.
fn ticket_missing_error() -> (r: String)
    ensures
        r@ == "Ticket is required to join"@,
{
    let s = "Ticket is required to join";
    s.to_owned()
}

/// The error shown when the ticket does not parse.
fn ticket_invalid_error() -> (r: String)
    ensures
        r@ == "Invalid ticket format"@,
{
    let s = "Invalid ticket format";
    s.to_owned()
}

} // verus!
