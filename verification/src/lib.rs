//! Following Rekordbox: reading tempo, position and tracks of its decks from its memory, and
//! telling output modules whatever changes.
//!
//! Nothing here touches the outside. Wherever something has to be read, converted, waited for or
//! sent, a function hands out a request together with the state in which it waits, and goes on
//! when it is given the reply (see [`protocol`]); what there is to print, to log or to tell the
//! modules is collected in a list (see [`output`]).
//!
//! - [`session`] and [`run`]: the whole course of things, from starting the modules through
//!   connecting to updating over and over. [`rounds`] and [`counting`] state what holds of it.
//! - [`keeper`] and [`update`]: one update of everything that is followed. [`updated`] states what
//!   it comes to as a whole, [`decks`] deck by deck, and [`repeat`], [`slow`] and [`master`] what
//!   follows from that.
//! - [`track`], [`change`] and [`single`]: what is followed of a deck, values that report changes,
//!   and the numbers among them.
//! - [`rekordbox`], [`reading`], [`chain`] and [`memory`]: connecting, and reading along chains of
//!   pointers. [`whole`] states what they come to.
//! - [`anlz`] and [`text`]: beat grids in analysis files, and texts in blocks of memory.
//! - [`report`]: what users are told about errors.
//! - [`launch`], [`updater`] and [`fetch`]: what happens before a session. [`routine`] states what
//!   looking for updates comes to.
//! - [`number`] and [`trim`]: numbers as text, and white space.
//!
//! Each of these activities is described twice: by functions on values, whose names end in `View`
//! or `Step` where they are types, and by the code, whose contracts speak of the former.
pub mod anlz;
pub mod chain;
pub mod change;
pub mod counting;
pub mod decks;
pub mod fetch;
pub mod keeper;
pub mod launch;
pub mod master;
pub mod memory;
pub mod number;
pub mod output;
pub mod protocol;
pub mod reading;
pub mod rekordbox;
pub mod repeat;
pub mod report;
pub mod rounds;
pub mod routine;
pub mod run;
pub mod session;
pub mod single;
pub mod slow;
pub mod text;
pub mod track;
pub mod trim;
pub mod update;
pub mod updated;
pub mod updater;
pub mod whole;
