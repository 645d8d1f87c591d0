use vstd::prelude::*;
use crate::pos::BiPos;

verus! {

/// How serious a diagnostic is.
#[derive(Clone, Copy, Debug, PartialEq, Eq, Structural)]
pub enum NoticeLevel {
    Notice,
    Warning,
    Error,
    /// A stage has finished its work.
    Halt,
}

/// A diagnostic record.
#[derive(Clone, Debug)]
pub struct Notice {
    /// Which stage sent it, and in what spirit.
    pub from: String,
    pub msg: String,
    /// The module or file it concerns.
    pub file: String,
    pub level: NoticeLevel,
    pub pos: BiPos,
}

/// A diagnostic as a mathematical value.
pub struct NoticeView {
    pub from: Seq<char>,
    pub msg: Seq<char>,
    pub file: Seq<char>,
    pub level: NoticeLevel,
    pub pos: BiPos,
}

impl View for Notice {
    type V = NoticeView;

    open spec fn view(&self) -> NoticeView {
        NoticeView {
            from: self.from@,
            msg: self.msg@,
            file: self.file@,
            level: self.level,
            pos: self.pos,
        }
    }
}

} // verus!
