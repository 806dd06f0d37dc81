//! MPE zones: the lower zone with master channel 1 and the upper zone with
//! master channel 16, their member channels and bend ranges.

use vstd::prelude::*;
use vstd::string::*;
use crate::error::{decimal, decimal_string, is_invalid_data, MidiError};

verus! {

/// The bend range, in semitones, of a channel that belongs to no zone.
pub const DEFAULT_BEND_RANGE: u16 = 2;

/// One MPE zone.
#[derive(Debug)]
pub struct MpeZone {
    /// Channel 1 or 16.
    pub master_channel: u8,
    /// The channels that belong to this zone, in rising order.
    pub member_channels: Vec<u8>,
    /// Pitch bend range in semitones.
    pub pitch_bend_range: u16,
    /// Whether the zone is enabled.
    pub is_active: bool,
}

/// What a zone is, apart from how it is stored.
pub struct ZoneView {
    pub master_channel: u8,
    pub member_channels: Seq<u8>,
    pub pitch_bend_range: u16,
    pub is_active: bool,
}

impl View for MpeZone {
    type V = ZoneView;

    open spec fn view(&self) -> ZoneView {
        ZoneView {
            master_channel: self.master_channel,
            member_channels: self.member_channels@,
            pitch_bend_range: self.pitch_bend_range,
            is_active: self.is_active,
        }
    }
}

impl Clone for MpeZone {
    fn clone(&self) -> (copy: Self)
        ensures
            copy@ == self@,
    {
        let mut members: Vec<u8> = Vec::new();
        let mut i: usize = 0;
        while i < self.member_channels.len()
            invariant
                i <= self.member_channels.len(),
                members@ == self.member_channels@.take(i as int),
            decreases self.member_channels.len() - i,
        {
            members.push(self.member_channels[i]);
            proof {
                assert(members@ =~= self.member_channels@.take(i + 1));
            }
            i = i + 1;
        }
        proof {
            assert(self.member_channels@.take(i as int) =~= self.member_channels@);
        }
        MpeZone {
            master_channel: self.master_channel,
            member_channels: members,
            pitch_bend_range: self.pitch_bend_range,
            is_active: self.is_active,
        }
    }
}

impl ZoneView {
    /// The zone is enabled and `channel` is one of its members.
    pub open spec fn has_member(self, channel: u8) -> bool {
        self.is_active && self.member_channels.contains(channel)
    }

    /// The zone is enabled and `channel` is its master.
    pub open spec fn has_master(self, channel: u8) -> bool {
        self.is_active && self.master_channel == channel
    }

    /// The zone is enabled and `channel` is its master or one of its members.
    pub open spec fn covers(self, channel: u8) -> bool {
        self.has_master(channel) || self.has_member(channel)
    }
}

/// The first and the number of the member channels of a zone with
/// `member_count` members: channels 2 to `member_count + 1` in the lower
/// zone, `16 - member_count` to 15 in the upper zone, as far as a channel
/// number can go.
pub open spec fn member_span(is_lower: bool, member_count: u8) -> (int, int) {
    if is_lower {
        (2, if member_count <= 254 {
            member_count as int
        } else {
            254
        })
    } else if member_count <= 16 {
        (16 - member_count, member_count as int)
    } else {
        (0, 16)
    }
}

/// The member channels of a zone with `member_count` members, rising.
pub open spec fn zone_members(is_lower: bool, member_count: u8) -> Seq<u8> {
    let (first, count) = member_span(is_lower, member_count);
    Seq::new(count as nat, |i: int| (first + i) as u8)
}

/// The zone that a configuration with these arguments makes.
pub open spec fn configured_zone(is_lower: bool, member_count: u8, bend_range: u16) -> ZoneView {
    ZoneView {
        master_channel: if is_lower {
            1
        } else {
            16
        },
        member_channels: zone_members(is_lower, member_count),
        pitch_bend_range: bend_range,
        is_active: true,
    }
}

/// The first channel of `lower` that is also in `upper`.
pub open spec fn first_shared(lower: Seq<u8>, upper: Seq<u8>) -> Option<u8>
    decreases lower.len(),
{
    if lower.len() == 0 {
        None
    } else if upper.contains(lower[0]) {
        Some(lower[0])
    } else {
        first_shared(lower.drop_first(), upper)
    }
}

/// The text of the error for a channel that is in both zones.
pub open spec fn overlap_text(channel: u8) -> Seq<char> {
    "Channel "@ + decimal(channel as nat) + " is in both zones"@
}

/// The two zones of a configuration.
pub struct ConfigView {
    pub lower_zone: Option<ZoneView>,
    pub upper_zone: Option<ZoneView>,
}

impl ConfigView {
    /// The configuration after one zone has been set, whatever it was.
    pub open spec fn configure(self, is_lower: bool, member_count: u8, bend_range: u16)
        -> ConfigView {
        let zone = Some(configured_zone(is_lower, member_count, bend_range));
        if is_lower {
            ConfigView { lower_zone: zone, upper_zone: self.upper_zone }
        } else {
            ConfigView { lower_zone: self.lower_zone, upper_zone: zone }
        }
    }

    /// Whether `channel` is a member of an enabled zone.
    pub open spec fn is_mpe_channel(self, channel: u8) -> bool {
        ||| self.lower_zone matches Some(zone) && zone.has_member(channel)
        ||| self.upper_zone matches Some(zone) && zone.has_member(channel)
    }

    /// Whether `channel` is the master of an enabled zone.
    pub open spec fn is_master_channel(self, channel: u8) -> bool {
        ||| self.lower_zone matches Some(zone) && zone.has_master(channel)
        ||| self.upper_zone matches Some(zone) && zone.has_master(channel)
    }

    /// The bend range of `channel`: that of the lower zone if the channel is
    /// its master or a member, else that of the upper zone if it is its
    /// master or a member, else the default.
    pub open spec fn bend_range(self, channel: u8) -> u16 {
        if self.lower_zone is Some && self.lower_zone->0.covers(channel) {
            self.lower_zone->0.pitch_bend_range
        } else if self.upper_zone is Some && self.upper_zone->0.covers(channel) {
            self.upper_zone->0.pitch_bend_range
        } else {
            DEFAULT_BEND_RANGE
        }
    }

    /// The configuration after the bend range of one zone has been set. A
    /// zone that is not configured stays so.
    pub open spec fn set_bend_range(self, is_lower: bool, bend_range: u16) -> ConfigView {
        if is_lower {
            match self.lower_zone {
                Some(zone) => ConfigView {
                    lower_zone: Some(ZoneView { pitch_bend_range: bend_range, ..zone }),
                    upper_zone: self.upper_zone,
                },
                None => self,
            }
        } else {
            match self.upper_zone {
                Some(zone) => ConfigView {
                    lower_zone: self.lower_zone,
                    upper_zone: Some(ZoneView { pitch_bend_range: bend_range, ..zone }),
                },
                None => self,
            }
        }
    }

    /// The first member of the lower zone that is a member of the upper zone
    /// too, if both zones are configured and share a member.
    pub open spec fn overlap(self) -> Option<u8> {
        match (self.lower_zone, self.upper_zone) {
            (Some(lower), Some(upper)) => first_shared(
                lower.member_channels,
                upper.member_channels,
            ),
            _ => None,
        }
    }
}

/// The zones of an MPE instrument.
#[derive(Debug)]
pub struct MpeConfiguration {
    lower_zone: Option<MpeZone>,
    upper_zone: Option<MpeZone>,
}

/// The view of a zone that may be absent.
pub open spec fn zone_view(zone: Option<MpeZone>) -> Option<ZoneView> {
    match zone {
        Some(z) => Some(z@),
        None => None,
    }
}

impl View for MpeConfiguration {
    type V = ConfigView;

    closed spec fn view(&self) -> ConfigView {
        ConfigView { lower_zone: zone_view(self.lower_zone), upper_zone: zone_view(self.upper_zone) }
    }
}

impl Clone for MpeConfiguration {
    fn clone(&self) -> (copy: Self)
        ensures
            copy@ == self@,
    {
        let lower_zone = match &self.lower_zone {
            Some(zone) => Some(zone.clone()),
            None => None,
        };
        let upper_zone = match &self.upper_zone {
            Some(zone) => Some(zone.clone()),
            None => None,
        };
        MpeConfiguration { lower_zone, upper_zone }
    }
}

fn holds_channel(channels: &Vec<u8>, channel: u8) -> (found: bool)
    ensures
        found == channels@.contains(channel),
{
    let mut i: usize = 0;
    while i < channels.len()
        invariant
            i <= channels.len(),
            forall|j: int| 0 <= j < i ==> channels@[j] != channel,
        decreases channels.len() - i,
    {
        if channels[i] == channel {
            return true;
        }
        i = i + 1;
    }
    false
}

fn build_members(is_lower: bool, member_count: u8) -> (members: Vec<u8>)
    ensures
        members@ == zone_members(is_lower, member_count),
{
    let first: u8 = if is_lower {
        2
    } else if member_count <= 16 {
        16 - member_count
    } else {
        0
    };
    let count: u8 = if is_lower {
        if member_count <= 254 {
            member_count
        } else {
            254
        }
    } else if member_count <= 16 {
        member_count
    } else {
        16
    };
    let mut members: Vec<u8> = Vec::new();
    let mut i: u8 = 0;
    while i < count
        invariant
            i <= count,
            first as int + count as int <= 256,
            members@ == Seq::new(i as nat, |j: int| (first + j) as u8),
        decreases count - i,
    {
        members.push(first + i);
        proof {
            assert(members@ =~= Seq::new((i + 1) as nat, |j: int| (first + j) as u8));
        }
        i = i + 1;
    }
    members
}

impl MpeConfiguration {
    /// A configuration without zones.
    pub fn new() -> (config: Self)
        ensures
            config@ == (ConfigView { lower_zone: None, upper_zone: None }),
    {
        MpeConfiguration { lower_zone: None, upper_zone: None }
    }

    /// Configures one zone and enables it. What the zone was before is
    /// overwritten.
    pub fn configure_zone(&mut self, is_lower: bool, member_count: u8, bend_range: u16)
        ensures
            final(self)@ == old(self)@.configure(is_lower, member_count, bend_range),
    {
        let zone = MpeZone {
            master_channel: if is_lower {
                1
            } else {
                16
            },
            member_channels: build_members(is_lower, member_count),
            pitch_bend_range: bend_range,
            is_active: true,
        };
        if is_lower {
            self.lower_zone = Some(zone);
        } else {
            self.upper_zone = Some(zone);
        }
    }

    /// Whether `channel` is a member channel of an enabled zone.
    pub fn is_mpe_channel(&self, channel: u8) -> (yes: bool)
        ensures
            yes == self@.is_mpe_channel(channel),
    {
        let in_lower = match &self.lower_zone {
            Some(zone) => zone.is_active && holds_channel(&zone.member_channels, channel),
            None => false,
        };
        if in_lower {
            return true;
        }
        match &self.upper_zone {
            Some(zone) => zone.is_active && holds_channel(&zone.member_channels, channel),
            None => false,
        }
    }

    /// Whether `channel` is the master channel of an enabled zone.
    pub fn is_master_channel(&self, channel: u8) -> (yes: bool)
        ensures
            yes == self@.is_master_channel(channel),
    {
        let in_lower = match &self.lower_zone {
            Some(zone) => zone.is_active && zone.master_channel == channel,
            None => false,
        };
        if in_lower {
            return true;
        }
        match &self.upper_zone {
            Some(zone) => zone.is_active && zone.master_channel == channel,
            None => false,
        }
    }

    /// The pitch bend range of `channel` in semitones.
    pub fn get_bend_range(&self, channel: u8) -> (range: u16)
        ensures
            range == self@.bend_range(channel),
    {
        if let Some(zone) = &self.lower_zone {
            if zone.is_active && (zone.master_channel == channel || holds_channel(
                &zone.member_channels,
                channel,
            )) {
                return zone.pitch_bend_range;
            }
        }
        if let Some(zone) = &self.upper_zone {
            if zone.is_active && (zone.master_channel == channel || holds_channel(
                &zone.member_channels,
                channel,
            )) {
                return zone.pitch_bend_range;
            }
        }
        DEFAULT_BEND_RANGE
    }

    /// Sets the pitch bend range of one zone, if that zone is configured.
    pub fn set_zone_bend_range(&mut self, is_lower: bool, bend_range: u16)
        ensures
            final(self)@ == old(self)@.set_bend_range(is_lower, bend_range),
    {
        if is_lower {
            match self.lower_zone.take() {
                Some(mut zone) => {
                    zone.pitch_bend_range = bend_range;
                    self.lower_zone = Some(zone);
                },
                None => {},
            }
        } else {
            match self.upper_zone.take() {
                Some(mut zone) => {
                    zone.pitch_bend_range = bend_range;
                    self.upper_zone = Some(zone);
                },
                None => {},
            }
        }
    }

    /// Checks that the two zones share no member channel. The error names
    /// the first member of the lower zone that the upper zone holds too.
    pub fn validate_zone_state(&self) -> (result: Result<(), MidiError>)
        ensures
            match self@.overlap() {
                Some(channel) => is_invalid_data(result, overlap_text(channel)),
                None => result is Ok,
            },
    {
        if let Some(lower) = &self.lower_zone {
            if let Some(upper) = &self.upper_zone {
                let ghost shared = self@.overlap();
                let mut i: usize = 0;
                proof {
                    assert(lower.member_channels@.skip(0) =~= lower.member_channels@);
                }
                while i < lower.member_channels.len()
                    invariant
                        i <= lower.member_channels.len(),
                        shared == self@.overlap(),
                        shared == first_shared(
                            lower.member_channels@.skip(i as int),
                            upper.member_channels@,
                        ),
                    decreases lower.member_channels.len() - i,
                {
                    let channel = lower.member_channels[i];
                    let ghost rest = lower.member_channels@.skip(i as int);
                    proof {
                        assert(rest[0] == channel);
                        assert(rest.drop_first() =~= lower.member_channels@.skip(i + 1));
                    }
                    if holds_channel(&upper.member_channels, channel) {
                        let mut text = "Channel ".to_owned();
                        let number = decimal_string(channel);
                        text.append(number.as_str());
                        text.append(" is in both zones");
                        return Err(MidiError::InvalidData(text));
                    }
                    i = i + 1;
                }
                proof {
                    assert(lower.member_channels@.skip(i as int).len() == 0);
                    assert(shared.is_none());
                }
            }
        }
        Ok(())
    }
}

/// A channel is a member of a configured lower zone exactly when it lies
/// from 2 to `member_count + 1`, and of a configured upper zone exactly when
/// it lies from `16 - member_count` to 15.
pub proof fn lemma_zone_membership(is_lower: bool, member_count: u8, channel: u8)
    ensures
        zone_members(is_lower, member_count).contains(channel) <==> (if is_lower {
            2 <= channel <= member_count + 1
        } else {
            16 - member_count <= channel <= 15
        }),
{
    let members = zone_members(is_lower, member_count);
    let (first, count) = member_span(is_lower, member_count);
    if first <= channel < first + count {
        assert(members[channel - first] == channel);
    }
}

/// After a zone has been configured its master is channel 1 or 16, its
/// members are the channels of `lemma_zone_membership`, and the other zone is
/// as it was.
pub proof fn lemma_configure_zone(
    v: ConfigView,
    is_lower: bool,
    member_count: u8,
    bend_range: u16,
    channel: u8,
)
    ensures
        ({
            let after = v.configure(is_lower, member_count, bend_range);
            let zone = if is_lower {
                after.lower_zone
            } else {
                after.upper_zone
            };
            &&& zone matches Some(z) && z.is_active && z.pitch_bend_range == bend_range
                && z.master_channel == (if is_lower {
                1u8
            } else {
                16u8
            }) && (z.has_member(channel) <==> (if is_lower {
                2 <= channel <= member_count + 1
            } else {
                16 - member_count <= channel <= 15
            }))
            &&& is_lower ==> after.upper_zone == v.upper_zone
            &&& !is_lower ==> after.lower_zone == v.lower_zone
        }),
{
    lemma_zone_membership(is_lower, member_count, channel);
}

/// The first shared channel is a member of both zones, and no member of the
/// lower zone before it is a member of the upper zone; there is none exactly
/// when the zones share no member.
pub proof fn lemma_first_shared(lower: Seq<u8>, upper: Seq<u8>)
    ensures
        match first_shared(lower, upper) {
            Some(channel) => exists|i: int|
                0 <= i < lower.len() && #[trigger] lower[i] == channel && upper.contains(channel)
                    && forall|j: int| 0 <= j < i ==> !upper.contains(#[trigger] lower[j]),
            None => forall|i: int| 0 <= i < lower.len() ==> !upper.contains(#[trigger] lower[i]),
        },
    decreases lower.len(),
{
    if lower.len() > 0 {
        let rest = lower.drop_first();
        if upper.contains(lower[0]) {
            assert(lower[0] == lower[0]);
        } else {
            lemma_first_shared(rest, upper);
            match first_shared(rest, upper) {
                Some(channel) => {
                    let i = choose|i: int|
                        0 <= i < rest.len() && #[trigger] rest[i] == channel && upper.contains(
                            channel,
                        ) && forall|j: int| 0 <= j < i ==> !upper.contains(#[trigger] rest[j]);
                    assert(lower[i + 1] == channel);
                    assert forall|j: int| 0 <= j < i + 1 implies !upper.contains(
                        #[trigger] lower[j],
                    ) by {
                        if j > 0 {
                            assert(lower[j] == rest[j - 1]);
                        }
                    }
                },
                None => {
                    assert forall|i: int| 0 <= i < lower.len() implies !upper.contains(
                        #[trigger] lower[i],
                    ) by {
                        if i > 0 {
                            assert(lower[i] == rest[i - 1]);
                        }
                    }
                },
            }
        }
    }
}

/// A configured lower zone and a configured upper zone share a member
/// exactly when neither is empty and they have fifteen members or more
/// between them; the first shared channel is then the first member of the
/// upper zone, or channel 2 if the upper zone begins before it.
pub proof fn lemma_configured_zones_overlap(lower_count: u8, upper_count: u8)
    ensures
        ({
            let lower = zone_members(true, lower_count);
            let upper = zone_members(false, upper_count);
            let overlap = lower_count >= 1 && upper_count >= 1 && lower_count + upper_count >= 15;
            &&& first_shared(lower, upper) is Some <==> overlap
            &&& overlap ==> first_shared(lower, upper) == Some(
                if upper_count <= 14 {
                    (16 - upper_count) as u8
                } else {
                    2u8
                },
            )
        }),
{
    let lower = zone_members(true, lower_count);
    let upper = zone_members(false, upper_count);
    lemma_first_shared(lower, upper);
    assert forall|i: int| 0 <= i < lower.len() implies (upper.contains(#[trigger] lower[i]) <==> 16
        - upper_count <= lower[i] <= 15) by {
        lemma_zone_membership(false, upper_count, lower[i]);
    }
    if lower_count >= 1 && upper_count >= 1 && lower_count + upper_count >= 15 {
        let first: int = if upper_count <= 14 {
            16 - upper_count
        } else {
            2
        };
        assert(lower[first - 2] == first);
        assert(upper.contains(lower[first - 2]));
        match first_shared(lower, upper) {
            Some(channel) => {
                let i = choose|i: int|
                    0 <= i < lower.len() && #[trigger] lower[i] == channel && upper.contains(
                        channel,
                    ) && forall|j: int| 0 <= j < i ==> !upper.contains(#[trigger] lower[j]);
                if i > first - 2 {
                    assert(!upper.contains(lower[first - 2]));
                }
                assert(channel == first);
            },
            None => {
                assert(!upper.contains(lower[first - 2]));
            },
        }
    } else {
        match first_shared(lower, upper) {
            Some(channel) => {
                let i = choose|i: int|
                    0 <= i < lower.len() && #[trigger] lower[i] == channel && upper.contains(
                        channel,
                    ) && forall|j: int| 0 <= j < i ==> !upper.contains(#[trigger] lower[j]);
                assert(upper.contains(lower[i]));
            },
            None => {},
        }
    }
}

} // verus!
