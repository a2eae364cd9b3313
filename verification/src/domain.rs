use vstd::prelude::*;

verus! {

/// Capacity bound on the alias list of a registration. Entries past this
/// bound are truncated on write (a documented policy, see the design notes
/// on `RegistrationDetails::new`).
pub const MAX_ALIASES: usize = 10;

/// Mathematical image of a sequence of strings: each string as its
/// character sequence.
pub open spec fn strs_view(s: Seq<String>) -> Seq<Seq<char>> {
    s.map_values(|x: String| x@)
}

/// The alias list as stored: at most `MAX_ALIASES` entries, excess dropped.
pub open spec fn capped_aliases(s: Seq<Seq<char>>) -> Seq<Seq<char>> {
    if s.len() <= MAX_ALIASES { s } else { s.take(MAX_ALIASES as int) }
}

/// Mathematical model of a `RegistrationDetails` value.
pub ghost struct RegistrationDetailsView {
    pub owner_info: Seq<char>,
    pub domain_aliases: Seq<Seq<char>>,
}

impl RegistrationDetailsView {
    /// Well-formedness: the alias list respects its capacity bound.
    pub open spec fn wf(self) -> bool {
        self.domain_aliases.len() <= MAX_ALIASES
    }
}

/// Free-form registration metadata attached to a domain: owner information
/// text and a capacity-bounded list of aliases.
#[derive(Clone, Debug, PartialEq, Eq)]
pub struct RegistrationDetails {
    pub owner_info: String,
    pub domain_aliases: Vec<String>,
}

impl View for RegistrationDetails {
    type V = RegistrationDetailsView;

    open spec fn view(&self) -> RegistrationDetailsView {
        RegistrationDetailsView {
            owner_info: self.owner_info@,
            domain_aliases: strs_view(self.domain_aliases@),
        }
    }
}

impl RegistrationDetails {
    /// Builds a details value from caller-supplied fields. Excess aliases
    /// beyond `MAX_ALIASES` are truncated rather than rejected: the write
    /// always succeeds and keeps the first `MAX_ALIASES` entries, in order.
    pub fn new(owner_info: String, domain_aliases: Vec<String>) -> (r: Self)
        ensures
            r@.owner_info == owner_info@,
            r@.domain_aliases == capped_aliases(strs_view(domain_aliases@)),
            r@.wf(),
    {
        let mut aliases = domain_aliases;
        if aliases.len() > MAX_ALIASES {
            let ghost full = aliases@;
            aliases.truncate(MAX_ALIASES);
            proof {
                assert(strs_view(aliases@) =~= capped_aliases(strs_view(full)));
            }
        }
        RegistrationDetails { owner_info, domain_aliases: aliases }
    }
}

/// Mathematical model of a `Domain` record.
pub ghost struct DomainView {
    pub owner: u64,
    pub regist_details: RegistrationDetailsView,
    pub expire: u64,
}

impl DomainView {
    /// Well-formedness of the stored record.
    pub open spec fn wf(self) -> bool {
        self.regist_details.wf()
    }
}

/// A domain record: the controlling account, its registration details, and
/// the absolute ordinal after which the domain counts as expired. Expiry is
/// advisory metadata: the record stays in the table until cancelled.
#[derive(Clone, Debug, PartialEq, Eq)]
pub struct Domain {
    /// Identity of the controlling account.
    pub owner: u64,
    /// Registration metadata, replaced wholesale by updates.
    pub regist_details: RegistrationDetails,
    /// Absolute ordinal after which the domain is considered expired.
    pub expire: u64,
}

impl View for Domain {
    type V = DomainView;

    open spec fn view(&self) -> DomainView {
        DomainView {
            owner: self.owner,
            regist_details: self.regist_details@,
            expire: self.expire,
        }
    }
}

} // verus!
