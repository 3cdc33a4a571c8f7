//! The window's side of the channel list: which sliders are shown.

use vstd::prelude::*;
use crate::engine::Notification;

verus! {

/// The names of the channels that have a slider, in the order in which they
/// were added.
#[derive(Debug)]
pub struct UIHandle {
    channels: Vec<String>,
}

/// Some slider is called `name`.
pub open spec fn has_slider(sliders: Seq<Seq<char>>, name: Seq<char>) -> bool {
    sliders.contains(name)
}

/// No two sliders bear one name.
pub open spec fn distinct(sliders: Seq<Seq<char>>) -> bool {
    forall|i: int, j: int| 0 <= i < j < sliders.len() ==> sliders[i] != sliders[j]
}

/// The sliders after a channel called `name` was announced.
pub open spec fn with_slider(sliders: Seq<Seq<char>>, name: Seq<char>) -> Seq<Seq<char>> {
    if has_slider(sliders, name) {
        sliders
    } else {
        sliders.push(name)
    }
}

/// What the window has to do.
#[derive(Debug, PartialEq, Eq)]
pub enum Redraw {
    /// Nothing: the slider is already there.
    Nothing,
    /// Remove every slider.
    Clear,
    /// Append a slider with this label.
    Append { name: String },
}

/// The sliders after a notification from the engine.
pub open spec fn after_notification(sliders: Seq<Seq<char>>, notification: Notification) -> Seq<
    Seq<char>,
> {
    match notification {
        Notification::ChannelsCleared => Seq::empty(),
        Notification::ChannelDiscovered { name } => with_slider(sliders, name@),
    }
}

/// What the window has to do on a notification from the engine.
pub open spec fn redraw_for(sliders: Seq<Seq<char>>, notification: Notification) -> Redraw {
    match notification {
        Notification::ChannelsCleared => Redraw::Clear,
        Notification::ChannelDiscovered { name } => if has_slider(sliders, name@) {
            Redraw::Nothing
        } else {
            Redraw::Append { name }
        },
    }
}

impl View for UIHandle {
    type V = Seq<Seq<char>>;

    closed spec fn view(&self) -> Seq<Seq<char>> {
        Seq::new(self.channels@.len(), |i: int| self.channels@[i]@)
    }
}

impl UIHandle {
    /// A window without sliders.
    pub fn new() -> (handle: UIHandle)
        ensures
            handle@ == Seq::<Seq<char>>::empty(),
    {
        let handle = UIHandle { channels: Vec::new() };
        assert(handle@ =~= Seq::<Seq<char>>::empty());
        handle
    }

    /// How many sliders are shown.
    pub fn len(&self) -> (n: usize)
        ensures
            n == self@.len(),
    {
        self.channels.len()
    }

    /// Tests whether a slider called `name` is shown.
    pub fn contains(&self, name: &String) -> (shown: bool)
        ensures
            shown == has_slider(self@, name@),
    {
        let mut i: usize = 0;
        while i < self.channels.len()
            invariant
                i <= self.channels.len(),
                forall|k: int| 0 <= k < i ==> self@[k] != name@,
            decreases self.channels.len() - i,
        {
            if self.channels[i] == *name {
                assert(self@[i as int] == name@);
                return true;
            }
            i += 1;
        }
        false
    }

    /// Notes a slider for the channel called `name`, unless there is one,
    /// and says whether the window has to draw it.
    pub fn add_slider(&mut self, name: String) -> (added: bool)
        ensures
            added == !has_slider(old(self)@, name@),
            final(self)@ == with_slider(old(self)@, name@),
            distinct(old(self)@) ==> distinct(final(self)@),
    {
        if self.contains(&name) {
            false
        } else {
            let ghost before = self@;
            self.channels.push(name);
            assert(self@ =~= before.push(name@));
            true
        }
    }

    /// Forgets every slider.
    pub fn clear_sliders(&mut self)
        ensures
            final(self)@ == Seq::<Seq<char>>::empty(),
    {
        self.channels = Vec::new();
        assert(self@ =~= Seq::<Seq<char>>::empty());
    }

    /// Takes a notification from the engine and says what the window has to
    /// do.
    pub fn notify(&mut self, notification: &Notification) -> (redraw: Redraw)
        ensures
            final(self)@ == after_notification(old(self)@, *notification),
            redraw == redraw_for(old(self)@, *notification),
            distinct(old(self)@) ==> distinct(final(self)@),
    {
        match notification {
            Notification::ChannelsCleared => {
                self.clear_sliders();
                Redraw::Clear
            },
            Notification::ChannelDiscovered { name } => {
                if self.add_slider(name.clone()) {
                    Redraw::Append { name: name.clone() }
                } else {
                    Redraw::Nothing
                }
            },
        }
    }
}

} // verus!
