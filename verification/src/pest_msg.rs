//! Messages of the pest-control protocol and their validation.
//!
//! Every decoded message is validated against the frame it came from:
//! the declared length must match the frame, the byte sum of the frame
//! must vanish modulo 256, a hello must name the right protocol and
//! version, and a site visit must not report two different counts for
//! one species. A failed check turns the message into the matching
//! error message.

use vstd::prelude::*;
use vstd::string::StringSliceAdditionalSpecFns;
use crate::codec::bytes_eq;
use crate::codec::copy_bytes;

verus! {

/// What a policy does to a species.
#[derive(PartialEq, Debug, Clone)]
pub enum Action {
    Cull,
    Conserve,
}

pub open spec fn action_code(a: Action) -> u8 {
    match a {
        Action::Cull => 0x90,
        Action::Conserve => 0xa0,
    }
}

impl Action {
    /// The wire byte of the action.
    pub fn code(&self) -> (r: u8)
        ensures
            r == action_code(*self),
    {
        match self {
            Action::Cull => 0x90,
            Action::Conserve => 0xa0,
        }
    }
}

/// The population band an authority wants for one species.
#[derive(PartialEq, Debug, Clone)]
pub struct TargetPopulation {
    pub species: Vec<u8>,
    pub min: u32,
    pub max: u32,
}

/// One observation of a site visit.
#[derive(PartialEq, Debug, Clone)]
pub struct VisitPopulation {
    pub species: Vec<u8>,
    pub count: u32,
}

pub struct VisitView {
    pub species: Seq<u8>,
    pub count: u32,
}

impl View for VisitPopulation {
    type V = VisitView;

    open spec fn view(&self) -> VisitView {
        VisitView { species: self.species@, count: self.count }
    }
}

pub struct TargetView {
    pub species: Seq<u8>,
    pub min: u32,
    pub max: u32,
}

impl View for TargetPopulation {
    type V = TargetView;

    open spec fn view(&self) -> TargetView {
        TargetView { species: self.species@, min: self.min, max: self.max }
    }
}

/// The protocol's message kinds.
#[derive(PartialEq, Debug, Clone)]
pub enum Msg {
    Hello { protocol: Vec<u8>, version: u32 },
    Error { message: Vec<u8> },
    Okay,
    DialAuthority { site: u32 },
    TargetPopulations { site: u32, populations: Vec<TargetPopulation> },
    CreatePolicy { species: Vec<u8>, action: Action },
    DeletePolicy { policy: u32 },
    PolicyResult { policy: u32 },
    SiteVisit { site: u32, populations: Vec<VisitPopulation> },
}

/// The mathematical shadow of [`Msg`].
pub enum MsgView {
    Hello { protocol: Seq<u8>, version: u32 },
    Error { message: Seq<u8> },
    Okay,
    DialAuthority { site: u32 },
    TargetPopulations { site: u32, populations: Seq<TargetView> },
    CreatePolicy { species: Seq<u8>, action: Action },
    DeletePolicy { policy: u32 },
    PolicyResult { policy: u32 },
    SiteVisit { site: u32, populations: Seq<VisitView> },
}

impl View for Msg {
    type V = MsgView;

    open spec fn view(&self) -> MsgView {
        match self {
            Msg::Hello { protocol, version } => MsgView::Hello {
                protocol: protocol@,
                version: *version,
            },
            Msg::Error { message } => MsgView::Error { message: message@ },
            Msg::Okay => MsgView::Okay,
            Msg::DialAuthority { site } => MsgView::DialAuthority { site: *site },
            Msg::TargetPopulations { site, populations } => MsgView::TargetPopulations {
                site: *site,
                populations: populations@.map_values(|t: TargetPopulation| t@),
            },
            Msg::CreatePolicy { species, action } => MsgView::CreatePolicy {
                species: species@,
                action: *action,
            },
            Msg::DeletePolicy { policy } => MsgView::DeletePolicy { policy: *policy },
            Msg::PolicyResult { policy } => MsgView::PolicyResult { policy: *policy },
            Msg::SiteVisit { site, populations } => MsgView::SiteVisit {
                site: *site,
                populations: views_of(populations@),
            },
        }
    }
}

pub open spec fn hello_ok_view(v: MsgView) -> bool {
    match v {
        MsgView::Hello { protocol, version } => protocol == "pestcontrol".spec_bytes()
            && version == 1,
        _ => true,
    }
}

pub open spec fn site_visit_ok_view(v: MsgView) -> bool {
    match v {
        MsgView::SiteVisit { site: _, populations } => !has_conflict(dedup_views(populations)),
        _ => true,
    }
}

/// What [`Msg::validate`] leaves of a message, at the level of views.
pub open spec fn validated_view(v: MsgView, length: u32, bytes: Seq<u8>) -> MsgView {
    if length != bytes.len() {
        MsgView::Error { message: "unexpected message length".spec_bytes() }
    } else if sum_bytes(bytes) % 256 != 0 {
        MsgView::Error { message: "checksum did not equal 0".spec_bytes() }
    } else if !hello_ok_view(v) {
        MsgView::Error { message: "bad hello".spec_bytes() }
    } else if !site_visit_ok_view(v) {
        MsgView::Error { message: "site visit contains conflicting observations".spec_bytes() }
    } else {
        v
    }
}

/// The byte sum of a frame.
pub open spec fn sum_bytes(s: Seq<u8>) -> int
    decreases s.len(),
{
    if s.len() == 0 {
        0
    } else {
        sum_bytes(s.drop_last()) + s.last()
    }
}

/// The observations with consecutive repeats collapsed, as the
/// validator sees them.
pub open spec fn dedup_views(s: Seq<VisitView>) -> Seq<VisitView>
    decreases s.len(),
{
    if s.len() <= 1 {
        s
    } else if s[0] == s[1] {
        dedup_views(s.skip(1))
    } else {
        seq![s[0]] + dedup_views(s.skip(1))
    }
}

pub open spec fn views_of(s: Seq<VisitPopulation>) -> Seq<VisitView> {
    s.map_values(|v: VisitPopulation| v@)
}

/// Two surviving observations name the same species: the visit
/// contradicts itself.
pub open spec fn has_conflict(vs: Seq<VisitView>) -> bool {
    exists|i: int, j: int|
        0 <= i < j < vs.len() && (#[trigger] vs[i]).species == (#[trigger] vs[j]).species
}

pub open spec fn hello_ok(m: Msg) -> bool {
    match m {
        Msg::Hello { protocol, version } => protocol@ == "pestcontrol".spec_bytes() && version
            == 1,
        _ => true,
    }
}

pub open spec fn site_visit_ok(m: Msg) -> bool {
    match m {
        Msg::SiteVisit { site: _, populations } => !has_conflict(
            dedup_views(views_of(populations@)),
        ),
        _ => true,
    }
}

/// Whether a message is an error carrying exactly this text.
pub open spec fn is_error_msg(m: Msg, text: Seq<u8>) -> bool {
    match m {
        Msg::Error { message } => message@ == text,
        _ => false,
    }
}

fn dedup_populations(ps: &Vec<VisitPopulation>) -> (r: Vec<VisitPopulation>)
    ensures
        views_of(r@) == dedup_views(views_of(ps@)),
{
    let ghost vs = views_of(ps@);
    let mut r: Vec<VisitPopulation> = Vec::new();
    let mut i: usize = ps.len();
    proof {
        assert(vs.skip(vs.len() as int) =~= Seq::<VisitView>::empty());
        assert(views_of(r@) =~= Seq::<VisitView>::empty());
    }
    while i > 0
        invariant
            i <= ps@.len(),
            vs == views_of(ps@),
            views_of(r@) == dedup_views(vs.skip(i as int)),
        decreases i,
    {
        i = i - 1;
        let same_as_next = if i + 1 < ps.len() {
            bytes_eq(ps[i].species.as_slice(), ps[i + 1].species.as_slice()) && ps[i].count
                == ps[i + 1].count
        } else {
            false
        };
        proof {
            assert(vs.skip(i as int)[0] == ps@[i as int]@);
            if i + 1 < ps@.len() {
                assert(vs.skip(i as int)[1] == ps@[i + 1]@);
            }
            assert(vs.skip(i as int).skip(1) =~= vs.skip(i + 1));
        }
        if same_as_next {
            proof {
                assert(ps@[i as int]@ == ps@[i + 1]@);
            }
        } else {
            let c = VisitPopulation {
                species: copy_bytes(ps[i].species.as_slice()),
                count: ps[i].count,
            };
            proof {
                assert(c@ == ps@[i as int]@);
            }
            r.insert(0, c);
            proof {
                assert(views_of(r@) =~= seq![vs.skip(i as int)[0]] + dedup_views(
                    vs.skip(i + 1),
                ));
            }
        }
    }
    proof {
        assert(vs.skip(0) =~= vs);
    }
    r
}

fn species_conflict(ps: &Vec<VisitPopulation>) -> (r: bool)
    ensures
        r == has_conflict(views_of(ps@)),
{
    let ghost vs = views_of(ps@);
    let mut i: usize = 0;
    while i < ps.len()
        invariant
            i <= ps@.len(),
            vs == views_of(ps@),
            forall|p: int, q: int|
                0 <= p < q < vs.len() && p < i ==> (#[trigger] vs[p]).species != (
                #[trigger] vs[q]).species,
        decreases ps@.len() - i,
    {
        let mut j: usize = i + 1;
        while j < ps.len()
            invariant
                i < j <= ps@.len(),
                i < ps@.len(),
                vs == views_of(ps@),
                forall|q: int|
                    i < q < j ==> (#[trigger] vs[q]).species != vs[i as int].species,
            decreases ps@.len() - j,
        {
            if bytes_eq(ps[i].species.as_slice(), ps[j].species.as_slice()) {
                proof {
                    assert(vs[i as int].species == vs[j as int].species);
                }
                return true;
            }
            j = j + 1;
        }
        i = i + 1;
    }
    false
}

impl TargetPopulation {
    /// What a site visit count asks of this target band: conserve below
    /// it, cull above it, nothing inside it.
    pub fn policy_action(&self, count: u32) -> (r: Option<Action>)
        ensures
            count < self.min ==> r == Some(Action::Conserve),
            count >= self.min && count > self.max ==> r == Some(Action::Cull),
            self.min <= count <= self.max ==> r is None,
    {
        if count < self.min {
            Some(Action::Conserve)
        } else if count > self.max {
            Some(Action::Cull)
        } else {
            None
        }
    }
}

impl Msg {
    /// An error message with the given text.
    pub fn err(message: &[u8]) -> (r: Self)
        ensures
            is_error_msg(r, message@),
    {
        Msg::Error { message: copy_bytes(message) }
    }

    /// The declared length must be the frame's own length.
    pub fn check_length(length: u32, msg_bytes: &[u8]) -> (r: Result<(), Msg>)
        requires
            msg_bytes@.len() <= u32::MAX,
        ensures
            r is Ok <==> length == msg_bytes@.len(),
            r matches Err(m) ==> is_error_msg(m, "unexpected message length".spec_bytes()),
    {
        if length as usize != msg_bytes.len() {
            return Err(Msg::err("unexpected message length".as_bytes()));
        }
        Ok(())
    }

    /// The frame's byte sum, checksum byte included, must vanish modulo
    /// 256.
    pub fn check_checksum(msg_bytes: &[u8]) -> (r: Result<(), Msg>)
        requires
            msg_bytes@.len() <= u32::MAX,
        ensures
            r is Ok <==> sum_bytes(msg_bytes@) % 256 == 0,
            r matches Err(m) ==> is_error_msg(m, "checksum did not equal 0".spec_bytes()),
    {
        let mut sum: u64 = 0;
        let mut i: usize = 0;
        while i < msg_bytes.len()
            invariant
                i <= msg_bytes@.len(),
                msg_bytes@.len() <= u32::MAX,
                sum == sum_bytes(msg_bytes@.take(i as int)),
                sum <= 255 * i,
            decreases msg_bytes@.len() - i,
        {
            proof {
                assert(msg_bytes@.take(i + 1).drop_last() =~= msg_bytes@.take(i as int));
                assert(msg_bytes@.take(i + 1).last() == msg_bytes@[i as int]);
            }
            sum = sum + msg_bytes[i] as u64;
            i = i + 1;
        }
        proof {
            assert(msg_bytes@.take(msg_bytes@.len() as int) =~= msg_bytes@);
        }
        if sum % 256 != 0 {
            return Err(Msg::err("checksum did not equal 0".as_bytes()));
        }
        Ok(())
    }

    /// A hello must name this protocol, version 1.
    pub fn check_hello(&self) -> (r: Result<(), Msg>)
        ensures
            r is Ok <==> hello_ok(*self),
            r matches Err(m) ==> is_error_msg(m, "bad hello".spec_bytes()),
    {
        match self {
            Msg::Hello { protocol, version } => {
                if !bytes_eq(protocol.as_slice(), "pestcontrol".as_bytes()) || *version != 1 {
                    return Err(Msg::err("bad hello".as_bytes()));
                }
                Ok(())
            },
            _ => Ok(()),
        }
    }

    /// A site visit may repeat an observation verbatim, but two
    /// surviving observations of one species contradict each other.
    pub fn check_site_visit(&self) -> (r: Result<(), Msg>)
        ensures
            r is Ok <==> site_visit_ok(*self),
            r matches Err(m) ==> is_error_msg(
                m,
                "site visit contains conflicting observations".spec_bytes(),
            ),
    {
        match self {
            Msg::SiteVisit { site: _, populations } => {
                let deduped = dedup_populations(populations);
                if species_conflict(&deduped) {
                    return Err(Msg::err("site visit contains conflicting observations".as_bytes()));
                }
                Ok(())
            },
            _ => Ok(()),
        }
    }

    /// Runs every check in order and hands the message through, or the
    /// first failure's error message.
    pub fn validate(self, length: u32, msg_bytes: &[u8]) -> (r: Msg)
        requires
            msg_bytes@.len() <= u32::MAX,
        ensures
            length != msg_bytes@.len() ==> is_error_msg(
                r,
                "unexpected message length".spec_bytes(),
            ),
            length == msg_bytes@.len() && sum_bytes(msg_bytes@) % 256 != 0 ==> is_error_msg(
                r,
                "checksum did not equal 0".spec_bytes(),
            ),
            length == msg_bytes@.len() && sum_bytes(msg_bytes@) % 256 == 0 && !hello_ok(self)
                ==> is_error_msg(r, "bad hello".spec_bytes()),
            length == msg_bytes@.len() && sum_bytes(msg_bytes@) % 256 == 0 && hello_ok(self)
                && !site_visit_ok(self) ==> is_error_msg(
                r,
                "site visit contains conflicting observations".spec_bytes(),
            ),
            length == msg_bytes@.len() && sum_bytes(msg_bytes@) % 256 == 0 && hello_ok(self)
                && site_visit_ok(self) ==> r == self,
    {
        match Self::check_length(length, msg_bytes) {
            Err(m) => {
                return m;
            },
            _ => {},
        }
        match Self::check_checksum(msg_bytes) {
            Err(m) => {
                return m;
            },
            _ => {},
        }
        match self.check_hello() {
            Err(m) => {
                return m;
            },
            _ => {},
        }
        match self.check_site_visit() {
            Err(m) => {
                return m;
            },
            _ => {},
        }
        self
    }
}

} // verus!
