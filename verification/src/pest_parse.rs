//! The inbound pest-control frame grammar.
//!
//! A frame carries a tag byte, the declared frame length, the fields of
//! its kind, and a trailing checksum byte; strings and population lists
//! are length-prefixed. A frame is only consumed once every byte of it
//! has arrived; a tag no parser knows, or a policy action that is
//! neither cull nor conserve, is malformed. Every parsed message passes
//! through [`Msg::validate`] before it is handed out.

use vstd::prelude::*;
use crate::pest_msg::Action;
use crate::pest_msg::Msg;
use crate::pest_msg::MsgView;
use crate::pest_msg::TargetPopulation;
use crate::pest_msg::TargetView;
use crate::pest_msg::VisitPopulation;
use crate::pest_msg::VisitView;
use crate::pest_msg::hello_ok;
use crate::pest_msg::hello_ok_view;
use crate::pest_msg::site_visit_ok;
use crate::pest_msg::site_visit_ok_view;
use crate::pest_msg::sum_bytes;
use crate::pest_msg::validated_view;
use crate::pest_msg::views_of;
use crate::speed::be32;
use crate::speed::next_u32;
use crate::speed::next_u8;

verus! {

/// A length-prefixed string field starting at `off`: where it ends and
/// what it holds, or nothing while bytes are missing.
pub open spec fn lstr_at(s: Seq<u8>, off: int) -> Option<(int, Seq<u8>)> {
    if off + 4 > s.len() {
        None
    } else {
        let n = be32(s, off);
        if off + 4 + n > s.len() {
            None
        } else {
            Some((off + 4 + n, s.subrange(off + 4, off + 4 + n)))
        }
    }
}

/// `n` site-visit entries (string plus count) starting at `off`.
pub open spec fn visits_at(s: Seq<u8>, off: int, n: nat) -> Option<(int, Seq<VisitView>)>
    decreases n,
{
    if n == 0 {
        Some((off, Seq::empty()))
    } else {
        match lstr_at(s, off) {
            None => None,
            Some((o2, sp)) => {
                if o2 + 4 > s.len() {
                    None
                } else {
                    match visits_at(s, o2 + 4, (n - 1) as nat) {
                        None => None,
                        Some((end, rest)) => Some(
                            (
                                end,
                                seq![
                                    VisitView { species: sp, count: be32(s, o2) as u32 },
                                ] + rest,
                            ),
                        ),
                    }
                }
            },
        }
    }
}

/// `n` target-population entries (string plus two counts) at `off`.
pub open spec fn targets_at(s: Seq<u8>, off: int, n: nat) -> Option<(int, Seq<TargetView>)>
    decreases n,
{
    if n == 0 {
        Some((off, Seq::empty()))
    } else {
        match lstr_at(s, off) {
            None => None,
            Some((o2, sp)) => {
                if o2 + 8 > s.len() {
                    None
                } else {
                    match targets_at(s, o2 + 8, (n - 1) as nat) {
                        None => None,
                        Some((end, rest)) => Some(
                            (
                                end,
                                seq![
                                    TargetView {
                                        species: sp,
                                        min: be32(s, o2) as u32,
                                        max: be32(s, o2 + 4) as u32,
                                    },
                                ] + rest,
                            ),
                        ),
                    }
                }
            },
        }
    }
}

/// What the head of the stream parses to, before validation: the bytes
/// consumed, the declared length, and the structural message.
pub enum SpecParse {
    SDone(int, u32, MsgView),
    SPending,
    SBad,
}

pub open spec fn spec_parse(s: Seq<u8>) -> SpecParse {
    if s.len() == 0 {
        SpecParse::SPending
    } else {
        let t = s[0];
        if s.len() < 5 {
            if t == 0x50 || t == 0x51 || t == 0x52 || t == 0x53 || t == 0x54 || t == 0x55 || t
                == 0x56 || t == 0x57 || t == 0x58 {
                SpecParse::SPending
            } else {
                SpecParse::SBad
            }
        } else {
            let length = be32(s, 1) as u32;
            if t == 0x50 {
                match lstr_at(s, 5) {
                    None => SpecParse::SPending,
                    Some((o, protocol)) => {
                        if o + 5 > s.len() {
                            SpecParse::SPending
                        } else {
                            SpecParse::SDone(
                                o + 5,
                                length,
                                MsgView::Hello { protocol, version: be32(s, o) as u32 },
                            )
                        }
                    },
                }
            } else if t == 0x51 {
                match lstr_at(s, 5) {
                    None => SpecParse::SPending,
                    Some((o, message)) => {
                        if o + 1 > s.len() {
                            SpecParse::SPending
                        } else {
                            SpecParse::SDone(o + 1, length, MsgView::Error { message })
                        }
                    },
                }
            } else if t == 0x52 {
                if s.len() < 6 {
                    SpecParse::SPending
                } else {
                    SpecParse::SDone(6, length, MsgView::Okay)
                }
            } else if t == 0x53 {
                if s.len() < 10 {
                    SpecParse::SPending
                } else {
                    SpecParse::SDone(
                        10,
                        length,
                        MsgView::DialAuthority { site: be32(s, 5) as u32 },
                    )
                }
            } else if t == 0x54 {
                if s.len() < 13 {
                    SpecParse::SPending
                } else {
                    match targets_at(s, 13, be32(s, 9) as nat) {
                        None => SpecParse::SPending,
                        Some((end, populations)) => {
                            if end + 1 > s.len() {
                                SpecParse::SPending
                            } else {
                                SpecParse::SDone(
                                    end + 1,
                                    length,
                                    MsgView::TargetPopulations {
                                        site: be32(s, 5) as u32,
                                        populations,
                                    },
                                )
                            }
                        },
                    }
                }
            } else if t == 0x55 {
                match lstr_at(s, 5) {
                    None => SpecParse::SPending,
                    Some((o, species)) => {
                        if o >= s.len() {
                            SpecParse::SPending
                        } else if s[o] != 0x90 && s[o] != 0xa0 {
                            SpecParse::SBad
                        } else if o + 2 > s.len() {
                            SpecParse::SPending
                        } else {
                            SpecParse::SDone(
                                o + 2,
                                length,
                                MsgView::CreatePolicy {
                                    species,
                                    action: if s[o] == 0x90 {
                                        Action::Cull
                                    } else {
                                        Action::Conserve
                                    },
                                },
                            )
                        }
                    },
                }
            } else if t == 0x56 {
                if s.len() < 10 {
                    SpecParse::SPending
                } else {
                    SpecParse::SDone(
                        10,
                        length,
                        MsgView::DeletePolicy { policy: be32(s, 5) as u32 },
                    )
                }
            } else if t == 0x57 {
                if s.len() < 10 {
                    SpecParse::SPending
                } else {
                    SpecParse::SDone(
                        10,
                        length,
                        MsgView::PolicyResult { policy: be32(s, 5) as u32 },
                    )
                }
            } else if t == 0x58 {
                if s.len() < 13 {
                    SpecParse::SPending
                } else {
                    match visits_at(s, 13, be32(s, 9) as nat) {
                        None => SpecParse::SPending,
                        Some((end, populations)) => {
                            if end + 1 > s.len() {
                                SpecParse::SPending
                            } else {
                                SpecParse::SDone(
                                    end + 1,
                                    length,
                                    MsgView::SiteVisit { site: be32(s, 5) as u32, populations },
                                )
                            }
                        },
                    }
                }
            } else {
                SpecParse::SBad
            }
        }
    }
}

/// The exec-level outcome of [`msg`]: a validated message with the
/// count of consumed bytes, a wait for more bytes, or malformed input.
pub enum Parse {
    Done(usize, Msg),
    Pending,
    Bad,
}

fn read_lstr(b: &[u8], pos: &mut usize) -> (r: Option<Vec<u8>>)
    requires
        *old(pos) <= b@.len(),
    ensures
        match r {
            Some(v) => lstr_at(b@, *old(pos) as int) == Some((*final(pos) as int, v@)),
            None => lstr_at(b@, *old(pos) as int) is None && *final(pos) == *old(pos),
        },
{
    let start = *pos;
    let n = match next_u32(b, pos) {
        Ok(v) => v,
        Err(_) => {
            return None;
        },
    };
    if b.len() - *pos < n as usize {
        *pos = start;
        return None;
    }
    let s = vstd::slice::slice_subrange(b, *pos, *pos + n as usize);
    let v = crate::codec::copy_bytes(s);
    *pos = *pos + n as usize;
    Some(v)
}

spec fn opt_prepend_visits(
    p: Seq<VisitView>,
    t: Option<(int, Seq<VisitView>)>,
) -> Option<(int, Seq<VisitView>)> {
    match t {
        Some((e, q)) => Some((e, p + q)),
        None => None,
    }
}

fn read_visits(b: &[u8], pos: &mut usize, n: u32) -> (r: Option<Vec<VisitPopulation>>)
    requires
        *old(pos) <= b@.len(),
    ensures
        match r {
            Some(v) => *final(pos) <= b@.len() && visits_at(b@, *old(pos) as int, n as nat)
                == Some((*final(pos) as int, views_of(v@))),
            None => visits_at(b@, *old(pos) as int, n as nat) is None,
        },
{
    let mut acc: Vec<VisitPopulation> = Vec::new();
    let mut i: u32 = 0;
    proof {
        assert(views_of(acc@) =~= Seq::<VisitView>::empty());
        if let Some((e, q)) = visits_at(b@, *pos as int, n as nat) {
            assert(Seq::<VisitView>::empty() + q =~= q);
        }
    }
    while i < n
        invariant
            i <= n,
            *pos <= b@.len(),
            visits_at(b@, *old(pos) as int, n as nat) == opt_prepend_visits(
                views_of(acc@),
                visits_at(b@, *pos as int, (n - i) as nat),
            ),
        decreases n - i,
    {
        let ghost pre_views = views_of(acc@);
        let species = match read_lstr(b, pos) {
            Some(v) => v,
            None => {
                return None;
            },
        };
        let count = match next_u32(b, pos) {
            Ok(v) => v,
            Err(_) => {
                return None;
            },
        };
        acc.push(VisitPopulation { species, count });
        i = i + 1;
        proof {
            assert(views_of(acc@) =~= pre_views + seq![acc@.last()@]);
            if let Some((e, q)) = visits_at(b@, *pos as int, (n - i) as nat) {
                assert((pre_views + seq![acc@.last()@]) + q =~= pre_views + (seq![
                    acc@.last()@,
                ] + q));
            }
        }
    }
    proof {
        assert(views_of(acc@) + Seq::<VisitView>::empty() =~= views_of(acc@));
    }
    Some(acc)
}

fn read_targets(b: &[u8], pos: &mut usize, n: u32) -> (r: Option<Vec<TargetPopulation>>)
    requires
        *old(pos) <= b@.len(),
    ensures
        match r {
            Some(v) => *final(pos) <= b@.len() && targets_at(b@, *old(pos) as int, n as nat)
                == Some((*final(pos) as int, v@.map_values(|t: TargetPopulation| t@))),
            None => targets_at(b@, *old(pos) as int, n as nat) is None,
        },
{
    let mut acc: Vec<TargetPopulation> = Vec::new();
    let mut i: u32 = 0;
    proof {
        assert(acc@.map_values(|t: TargetPopulation| t@) =~= Seq::<TargetView>::empty());
        if let Some((e, q)) = targets_at(b@, *pos as int, n as nat) {
            assert(Seq::<TargetView>::empty() + q =~= q);
        }
    }
    while i < n
        invariant
            i <= n,
            *pos <= b@.len(),
            ({
                let done = acc@.map_values(|t: TargetPopulation| t@);
                targets_at(b@, *old(pos) as int, n as nat) == (match targets_at(
                    b@,
                    *pos as int,
                    (n - i) as nat,
                ) {
                    Some((e, q)) => Some((e, done + q)),
                    None => None::<(int, Seq<TargetView>)>,
                })
            }),
        decreases n - i,
    {
        let ghost pre_views = acc@.map_values(|t: TargetPopulation| t@);
        let species = match read_lstr(b, pos) {
            Some(v) => v,
            None => {
                return None;
            },
        };
        let min = match next_u32(b, pos) {
            Ok(v) => v,
            Err(_) => {
                return None;
            },
        };
        let max = match next_u32(b, pos) {
            Ok(v) => v,
            Err(_) => {
                return None;
            },
        };
        acc.push(TargetPopulation { species, min, max });
        i = i + 1;
        proof {
            assert(acc@.map_values(|t: TargetPopulation| t@) =~= pre_views + seq![
                acc@.last()@,
            ]);
            if let Some((e, q)) = targets_at(b@, *pos as int, (n - i) as nat) {
                assert((pre_views + seq![acc@.last()@]) + q =~= pre_views + (seq![
                    acc@.last()@,
                ] + q));
            }
        }
    }
    proof {
        assert(acc@.map_values(|t: TargetPopulation| t@) + Seq::<TargetView>::empty()
            =~= acc@.map_values(|t: TargetPopulation| t@));
    }
    Some(acc)
}

/// Parses and validates the next message, exactly as [`spec_parse`]
/// followed by [`validated_view`] describe.
#[verifier::rlimit(60)]
pub fn msg(input: &[u8]) -> (r: Parse)
    requires
        input@.len() <= u32::MAX,
    ensures
        match spec_parse(input@) {
            SpecParse::SDone(n, length, v) => r matches Parse::Done(nn, m) && nn == n && m@
                == validated_view(v, length, input@.take(n)),
            SpecParse::SPending => r matches Parse::Pending,
            SpecParse::SBad => r matches Parse::Bad,
        },
{
    if input.len() == 0 {
        return Parse::Pending;
    }
    let t = input[0];
    if !(t >= 0x50 && t <= 0x58) {
        return Parse::Bad;
    }
    let mut pos: usize = 1;
    let length = match next_u32(input, &mut pos) {
        Ok(v) => v,
        Err(_) => {
            return Parse::Pending;
        },
    };
    if t == 0x50 {
        let protocol = match read_lstr(input, &mut pos) {
            Some(v) => v,
            None => {
                return Parse::Pending;
            },
        };
        let version = match next_u32(input, &mut pos) {
            Ok(v) => v,
            Err(_) => {
                return Parse::Pending;
            },
        };
        match next_u8(input, &mut pos) {
            Ok(_) => {},
            Err(_) => {
                return Parse::Pending;
            },
        }
        finish(input, pos, length, Msg::Hello { protocol, version })
    } else if t == 0x51 {
        let message = match read_lstr(input, &mut pos) {
            Some(v) => v,
            None => {
                return Parse::Pending;
            },
        };
        match next_u8(input, &mut pos) {
            Ok(_) => {},
            Err(_) => {
                return Parse::Pending;
            },
        }
        finish(input, pos, length, Msg::Error { message })
    } else if t == 0x52 {
        match next_u8(input, &mut pos) {
            Ok(_) => {},
            Err(_) => {
                return Parse::Pending;
            },
        }
        finish(input, pos, length, Msg::Okay)
    } else if t == 0x53 || t == 0x56 || t == 0x57 {
        let field = match next_u32(input, &mut pos) {
            Ok(v) => v,
            Err(_) => {
                return Parse::Pending;
            },
        };
        match next_u8(input, &mut pos) {
            Ok(_) => {},
            Err(_) => {
                return Parse::Pending;
            },
        }
        if t == 0x53 {
            finish(input, pos, length, Msg::DialAuthority { site: field })
        } else if t == 0x56 {
            finish(input, pos, length, Msg::DeletePolicy { policy: field })
        } else {
            finish(input, pos, length, Msg::PolicyResult { policy: field })
        }
    } else if t == 0x54 {
        let site = match next_u32(input, &mut pos) {
            Ok(v) => v,
            Err(_) => {
                return Parse::Pending;
            },
        };
        let count = match next_u32(input, &mut pos) {
            Ok(v) => v,
            Err(_) => {
                return Parse::Pending;
            },
        };
        let populations = match read_targets(input, &mut pos, count) {
            Some(v) => v,
            None => {
                return Parse::Pending;
            },
        };
        match next_u8(input, &mut pos) {
            Ok(_) => {},
            Err(_) => {
                return Parse::Pending;
            },
        }
        finish(input, pos, length, Msg::TargetPopulations { site, populations })
    } else if t == 0x55 {
        let species = match read_lstr(input, &mut pos) {
            Some(v) => v,
            None => {
                return Parse::Pending;
            },
        };
        let action_byte = match next_u8(input, &mut pos) {
            Ok(v) => v,
            Err(_) => {
                return Parse::Pending;
            },
        };
        if action_byte != 0x90 && action_byte != 0xa0 {
            return Parse::Bad;
        }
        let action = if action_byte == 0x90 {
            Action::Cull
        } else {
            Action::Conserve
        };
        match next_u8(input, &mut pos) {
            Ok(_) => {},
            Err(_) => {
                return Parse::Pending;
            },
        }
        finish(input, pos, length, Msg::CreatePolicy { species, action })
    } else {
        let site = match next_u32(input, &mut pos) {
            Ok(v) => v,
            Err(_) => {
                return Parse::Pending;
            },
        };
        let count = match next_u32(input, &mut pos) {
            Ok(v) => v,
            Err(_) => {
                return Parse::Pending;
            },
        };
        let populations = match read_visits(input, &mut pos, count) {
            Some(v) => v,
            None => {
                return Parse::Pending;
            },
        };
        match next_u8(input, &mut pos) {
            Ok(_) => {},
            Err(_) => {
                return Parse::Pending;
            },
        }
        finish(input, pos, length, Msg::SiteVisit { site, populations })
    }
}

fn finish(input: &[u8], consumed: usize, length: u32, m: Msg) -> (r: Parse)
    requires
        consumed <= input@.len(),
        consumed <= u32::MAX,
    ensures
        r matches Parse::Done(n, v) && n == consumed && v@ == validated_view(
            m@,
            length,
            input@.take(consumed as int),
        ),
{
    let frame = vstd::slice::slice_subrange(input, 0, consumed);
    proof {
        assert(frame@ =~= input@.take(consumed as int));
    }
    let validated = m.validate(length, frame);
    proof {
        let bytes = input@.take(consumed as int);
        assert(hello_ok(m) == hello_ok_view(m@));
        assert(site_visit_ok(m) == site_visit_ok_view(m@));
        if length == bytes.len() && sum_bytes(bytes) % 256 == 0 && hello_ok(m)
            && site_visit_ok(m) {
            assert(validated == m);
        } else {
            if let Msg::Error { message } = &validated {
                assert(validated@ == MsgView::Error { message: message@ });
            }
        }
    }
    Parse::Done(consumed, validated)
}

} // verus!
