//! Who is in the chat: the list that the names over enemies come from.

use vstd::prelude::*;
use crate::bosses::opt_text;
use crate::config::{lowercase, to_lowercase, ViewerSource};
use crate::text::{chars_of, has_text, same, texts};

verus! {

/// How long a full list counts as fresh, in nanoseconds. While it does, lists from the chat
/// are passed over: they hold only those who write.
pub const HELIX_FRESH: u64 = 300_000_000_000;

/// The viewers of a channel.
pub struct Crowd {
    pub viewers: Vec<String>,
    /// Grows with every change of the list, so that nobody has to compare it.
    pub viewers_gen: u64,
    /// The channel whose chat is read.
    pub chat_channel: Option<String>,
    /// When the full list last came.
    pub helix_chatters_at: Option<u64>,
}

/// The same by its texts.
pub struct CrowdText {
    pub viewers: Seq<Seq<char>>,
    pub generation: u64,
    pub channel: Option<Seq<char>>,
    pub full_at: Option<u64>,
}

impl Crowd {
    pub open spec fn text(self) -> CrowdText {
        CrowdText {
            viewers: texts(self.viewers@),
            generation: self.viewers_gen,
            channel: opt_text(self.chat_channel),
            full_at: self.helix_chatters_at,
        }
    }
}

/// The viewers who are not blocked, whatever the case of their names.
pub open spec fn unblocked(vs: Seq<Seq<char>>, block: Seq<Seq<char>>) -> Seq<Seq<char>>
    decreases vs.len(),
{
    if vs.len() == 0 {
        Seq::empty()
    } else if block.contains(lowercase(vs.last())) {
        unblocked(vs.drop_last(), block)
    } else {
        unblocked(vs.drop_last(), block).push(vs.last())
    }
}

/// Nobody is blocked while the list of the blocked is empty.
pub open spec fn after_block(vs: Seq<Seq<char>>, block: Seq<Seq<char>>) -> Seq<Seq<char>> {
    if block.len() == 0 {
        vs
    } else {
        unblocked(vs, block)
    }
}

/// Whether a list is taken: from the source that was chosen, and from the chat only while
/// there is no fresh full list.
pub open spec fn takes(t: CrowdText, helix: bool, source: ViewerSource, now: u64) -> bool {
    let fresh: bool = t.full_at is Some && now < t.full_at.unwrap() + HELIX_FRESH;
    match source {
        ViewerSource::App => helix,
        ViewerSource::Chat => !helix && !fresh,
        ViewerSource::Auto => helix || !fresh,
    }
}

/// The crowd after a list has come.
pub open spec fn updated(
    t: CrowdText,
    list: Seq<Seq<char>>,
    helix: bool,
    source: ViewerSource,
    block: Seq<Seq<char>>,
    now: u64,
) -> CrowdText {
    if takes(t, helix, source, now) {
        CrowdText {
            viewers: after_block(list, block),
            generation: t.generation.wrapping_add(1),
            channel: t.channel,
            full_at: if helix {
                Some(now)
            } else {
                t.full_at
            },
        }
    } else {
        t
    }
}

/// Nobody yet, and everything to be asked again.
pub open spec fn emptied(t: CrowdText) -> CrowdText {
    CrowdText {
        viewers: Seq::empty(),
        generation: t.generation.wrapping_add(1),
        channel: t.channel,
        full_at: None,
    }
}

/// The list without the blocked.
pub open spec fn without_blocked(t: CrowdText, block: Seq<Seq<char>>) -> CrowdText {
    CrowdText { viewers: after_block(t.viewers, block), ..t }
}

/// The blocked are others now.
pub open spec fn reblocked(t: CrowdText, block: Seq<Seq<char>>) -> CrowdText {
    CrowdText { generation: t.generation.wrapping_add(1), ..without_blocked(t, block) }
}

/// The channel is this one now.
pub open spec fn on_channel(t: CrowdText, channel: Option<Seq<char>>) -> CrowdText {
    if channel != t.channel {
        CrowdText { channel, ..emptied(t) }
    } else {
        t
    }
}

impl Crowd {
    /// Nobody, and no channel.
    pub fn new() -> (r: Crowd)
        ensures
            r.text() == (CrowdText {
                viewers: Seq::empty(),
                generation: 0,
                channel: None,
                full_at: None,
            }),
    {
        let r: Crowd = Crowd {
            viewers: Vec::new(),
            viewers_gen: 0,
            chat_channel: None,
            helix_chatters_at: None,
        };
        assert(texts(r.viewers@) == Seq::<Seq<char>>::empty());
        r
    }

    /// Takes the viewers out whom the streamer does not want to see over enemies.
    pub fn drop_blocked(&mut self, block: &Vec<String>)
        ensures
            final(self).text() == without_blocked(old(self).text(), texts(block@)),
    {
        assert(texts(block@).len() == block.len());
        if block.len() == 0 {
            return;
        }
        let ghost vs = texts(self.viewers@);
        let mut kept: Vec<String> = Vec::new();
        assert(texts(kept@) == unblocked(vs.take(0), texts(block@)));
        for i in 0..self.viewers.len()
            invariant
                *self == *old(self),
                vs == texts(self.viewers@),
                texts(kept@) == unblocked(vs.take(i as int), texts(block@)),
        {
            let ghost was = kept@;
            proof {
                assert(vs.take(i + 1).drop_last() == vs.take(i as int));
                assert(vs.take(i + 1).last() == self.viewers@[i as int]@);
            }
            let small: String = to_lowercase(&self.viewers[i]);
            if !has_text(block, &small) {
                kept.push(self.viewers[i].clone());
                assert(texts(kept@) == texts(was).push(self.viewers@[i as int]@));
            }
        }
        assert(vs.take(vs.len() as int) == vs);
        self.viewers = kept;
    }

    /// The streamer changed the list of the blocked: it holds at once, without waiting for
    /// the next list.
    pub fn reblock(&mut self, block: &Vec<String>)
        ensures
            final(self).text() == reblocked(old(self).text(), texts(block@)),
    {
        self.drop_blocked(block);
        self.viewers_gen = self.viewers_gen.wrapping_add(1);
    }

    /// A list of viewers has come. Returns whether it was taken.
    pub fn update(
        &mut self,
        list: Vec<String>,
        helix: bool,
        source: ViewerSource,
        block: &Vec<String>,
        now: u64,
    ) -> (r: bool)
        ensures
            r == takes(old(self).text(), helix, source, now),
            final(self).text() == updated(
                old(self).text(),
                texts(list@),
                helix,
                source,
                texts(block@),
                now,
            ),
    {
        let fresh: bool = match self.helix_chatters_at {
            Some(at) => now < at || now - at < HELIX_FRESH,
            None => false,
        };
        let taken: bool = match source {
            ViewerSource::App => helix,
            ViewerSource::Chat => !helix && !fresh,
            ViewerSource::Auto => helix || !fresh,
        };
        if !taken {
            return false;
        }
        if helix {
            self.helix_chatters_at = Some(now);
        }
        self.viewers = list;
        self.drop_blocked(block);
        self.viewers_gen = self.viewers_gen.wrapping_add(1);
        true
    }

    /// Begins anew: everybody is forgotten until the chat sends its list again.
    pub fn refresh(&mut self)
        ensures
            final(self).text() == emptied(old(self).text()),
    {
        self.viewers = Vec::new();
        assert(texts(self.viewers@) == Seq::<Seq<char>>::empty());
        self.viewers_gen = self.viewers_gen.wrapping_add(1);
        self.helix_chatters_at = None;
    }

    /// The channel of the settings. If it is another one, its predecessor's viewers are
    /// strangers and are forgotten. Returns whether it is another one, so that its chat has
    /// to be joined.
    pub fn set_channel(&mut self, channel: &Option<String>) -> (r: bool)
        ensures
            r == (opt_text(*channel) != old(self).text().channel),
            final(self).text() == on_channel(old(self).text(), opt_text(*channel)),
    {
        let unchanged: bool = match (channel, &self.chat_channel) {
            (Some(a), Some(b)) => same(&chars_of(a), b),
            (None, None) => true,
            _ => false,
        };
        if unchanged {
            return false;
        }
        self.chat_channel = match channel {
            Some(c) => Some(c.clone()),
            None => None,
        };
        self.refresh();
        true
    }
}

/// A blocked viewer is never in the list after a list has been taken.
pub proof fn the_blocked_are_never_listed(
    t: CrowdText,
    list: Seq<Seq<char>>,
    helix: bool,
    source: ViewerSource,
    block: Seq<Seq<char>>,
    now: u64,
    i: int,
)
    requires
        takes(t, helix, source, now),
        0 <= i < updated(t, list, helix, source, block, now).viewers.len(),
    ensures
        !block.contains(lowercase(updated(t, list, helix, source, block, now).viewers[i])),
{
    lemma_unblocked(list, block);
}

proof fn lemma_unblocked(vs: Seq<Seq<char>>, block: Seq<Seq<char>>)
    ensures
        forall|i: int|
            0 <= i < unblocked(vs, block).len() ==> !block.contains(
                lowercase(#[trigger] unblocked(vs, block)[i]),
            ),
    decreases vs.len(),
{
    if vs.len() > 0 {
        lemma_unblocked(vs.drop_last(), block);
        let b = unblocked(vs.drop_last(), block);
        let out = unblocked(vs, block);
        assert forall|i: int| 0 <= i < out.len() implies !block.contains(
            lowercase(#[trigger] out[i]),
        ) by {
            if i < b.len() {
                assert(out[i] == b[i]);
            }
        }
    }
}

/// While a full list is fresh the chat cannot replace it.
pub proof fn a_fresh_full_list_stays(
    t: CrowdText,
    list: Seq<Seq<char>>,
    source: ViewerSource,
    block: Seq<Seq<char>>,
    now: u64,
)
    requires
        t.full_at is Some,
        now < t.full_at.unwrap() + HELIX_FRESH,
    ensures
        updated(t, list, false, source, block, now) == t,
{
}

} // verus!
