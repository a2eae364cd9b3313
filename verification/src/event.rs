use vstd::prelude::*;

verus! {

/// Mathematical model of a recorded event.
pub ghost enum EventView {
    Registered { name: Seq<char>, owner: u64, expire: u64 },
    OwnershipTransferred { name: Seq<char>, old_owner: u64, recipient: u64 },
    Renewed { name: Seq<char>, new_expire: u64 },
    RegistrationUpdated { name: Seq<char> },
    Cancelled { name: Seq<char>, owner: u64 },
    DnsRecordSet { name: Seq<char>, record_type: Seq<char>, value: Seq<char> },
    DnsRecordRemoved { name: Seq<char>, record_type: Seq<char> },
}

/// One structured event per successful transition, recorded for the
/// notification sink. Never recorded on failure.
#[derive(Clone, Debug, PartialEq, Eq)]
pub enum Event {
    /// A domain was registered.
    Registered { name: String, owner: u64, expire: u64 },
    /// A domain changed owner.
    OwnershipTransferred { name: String, old_owner: u64, recipient: u64 },
    /// A domain's expiry was advanced.
    Renewed { name: String, new_expire: u64 },
    /// A domain's registration details were replaced.
    RegistrationUpdated { name: String },
    /// A domain was removed from the registry.
    Cancelled { name: String, owner: u64 },
    /// A DNS record was created or overwritten.
    DnsRecordSet { name: String, record_type: String, value: String },
    /// A DNS record was removed.
    DnsRecordRemoved { name: String, record_type: String },
}

impl View for Event {
    type V = EventView;

    open spec fn view(&self) -> EventView {
        match self {
            Event::Registered { name, owner, expire } => EventView::Registered {
                name: name@,
                owner: *owner,
                expire: *expire,
            },
            Event::OwnershipTransferred { name, old_owner, recipient } => (
            EventView::OwnershipTransferred { name: name@, old_owner: *old_owner, recipient: *recipient }),
            Event::Renewed { name, new_expire } => EventView::Renewed {
                name: name@,
                new_expire: *new_expire,
            },
            Event::RegistrationUpdated { name } => EventView::RegistrationUpdated { name: name@ },
            Event::Cancelled { name, owner } => EventView::Cancelled {
                name: name@,
                owner: *owner,
            },
            Event::DnsRecordSet { name, record_type, value } => EventView::DnsRecordSet {
                name: name@,
                record_type: record_type@,
                value: value@,
            },
            Event::DnsRecordRemoved { name, record_type } => EventView::DnsRecordRemoved {
                name: name@,
                record_type: record_type@,
            },
        }
    }
}

/// Mathematical image of a recorded event sequence.
pub open spec fn events_view(s: Seq<Event>) -> Seq<EventView> {
    s.map_values(|e: Event| e@)
}

/// Recording one more event appends its model to the feed's model.
pub proof fn lemma_events_view_push(s: Seq<Event>, e: Event)
    ensures
        events_view(s.push(e)) == events_view(s).push(e@),
{
    assert(events_view(s.push(e)) =~= events_view(s).push(e@));
}

} // verus!
