use vstd::prelude::*;

verus! {

/// A visible range of an editor axis, in the editor's fixed-point coordinates.
#[derive(Clone, Copy, PartialEq, Eq, Structural, Debug)]
pub struct View {
    pub start: i64,
    pub end: i64,
}

/// A message of the sheet editor.
#[derive(Clone, Copy, PartialEq, Eq, Structural, Debug)]
pub enum Message {
    XViewChanged(View),
    YViewChanged(View),
    SetScrolling,
}

/// A message of the application, tagged with the editor it is for.
#[derive(Clone, Copy, PartialEq, Eq, Structural, Debug)]
pub enum RootMessage {
    SheetEditor(Message),
}

/// Addresses a sheet editor message to the sheet editor.
pub fn rootmsg(msg: Message) -> (r: RootMessage)
    ensures
        r == RootMessage::SheetEditor(msg),
{
    RootMessage::SheetEditor(msg)
}

} // verus!
