//! What the screen is told.
use vstd::prelude::*;

verus! {

/// An event for the screen.
#[derive(Debug)]
pub enum Event {
    /// A page was asked for over HTTP.
    PageChange(u32),
    /// The link to the server changed.
    WsStatus(String),
    /// A page of a file is to be shown; without a file, of the one on show.
    PdfShow { file_name: Option<String>, page: u32 },
    /// A sync is over, and the device has this many of its files.
    WsDataSynced(usize),
}

impl Event {
    /// The name under which the screen listens for the event.
    pub open spec fn topic(self) -> Seq<char> {
        match self {
            Event::PageChange(_) => "page_change"@,
            Event::WsStatus(_) => "ws_status"@,
            Event::PdfShow { .. } => "pdf_show"@,
            Event::WsDataSynced(_) => "ws_data_synced"@,
        }
    }

    /// The name under which the screen listens for the event.
    pub fn name(&self) -> (r: &'static str)
        ensures
            r@ == self.topic(),
    {
        match self {
            Event::PageChange(_) => "page_change",
            Event::WsStatus(_) => "ws_status",
            Event::PdfShow { .. } => "pdf_show",
            Event::WsDataSynced(_) => "ws_data_synced",
        }
    }
}

/// The screen listens for each kind of event under a name of its own, whatever the event carries.
pub proof fn law_topics(event: Event, r: &'static str)
    requires
        call_ensures(Event::name, (&event,), r),
    ensures
        event is PageChange <==> r@ == "page_change"@,
        event is WsStatus <==> r@ == "ws_status"@,
        event is PdfShow <==> r@ == "pdf_show"@,
        event is WsDataSynced <==> r@ == "ws_data_synced"@,
{
    reveal_strlit("page_change");
    reveal_strlit("ws_status");
    reveal_strlit("pdf_show");
    reveal_strlit("ws_data_synced");
    assert("page_change"@.len() == 11);
    assert("ws_status"@.len() == 9);
    assert("pdf_show"@.len() == 8);
    assert("ws_data_synced"@.len() == 14);
}

} // verus!
