//! Color themes of the frontend: parsed from raw configuration triples and
//! cycled through by the host.

use vstd::prelude::*;

verus! {

/// One color theme: hex color codes for the display background, the display
/// foreground and the text.
pub struct Theme {
    pub bg: String,
    pub fg: String,
    pub text: String,
}

/// The set of parsed themes and the index of the active one.
pub struct ThemeManager {
    pub themes: Vec<Theme>,
    pub theme_index: u32,
    pub num_themes: u32,
}

impl ThemeManager {
    /// The theme count matches the theme list.
    pub open spec fn wf(&self) -> bool {
        self.num_themes == self.themes@.len()
    }

    /// A manager holding one empty placeholder theme.
    pub fn new() -> (tm: ThemeManager)
        ensures
            tm.wf(),
            tm.themes@.len() == 1,
            tm.themes@[0].bg@ == Seq::<char>::empty(),
            tm.themes@[0].fg@ == Seq::<char>::empty(),
            tm.themes@[0].text@ == Seq::<char>::empty(),
            tm.theme_index == 0,
            tm.num_themes == 1,
    {
        ThemeManager {
            themes: vec![
                Theme { bg: String::new(), fg: String::new(), text: String::new() },
            ],
            theme_index: 0,
            num_themes: 1,
        }
    }

    /// Replace the theme list with one theme per configuration triple: its
    /// background, foreground and text color, in that order. The active
    /// index is kept.
    pub fn parse_themes(&mut self, raw: &Vec<Vec<String>>)
        requires
            forall|i: int| 0 <= i < raw@.len() ==> raw@[i]@.len() >= 3,
            raw@.len() <= u32::MAX,
        ensures
            final(self).wf(),
            final(self).themes@.len() == raw@.len(),
            forall|i: int|
                0 <= i < raw@.len() ==> {
                    &&& final(self).themes@[i].bg@ == raw@[i]@[0]@
                    &&& final(self).themes@[i].fg@ == raw@[i]@[1]@
                    &&& final(self).themes@[i].text@ == raw@[i]@[2]@
                },
            final(self).num_themes == raw@.len(),
            final(self).theme_index == old(self).theme_index,
    {
        let mut final_themes: Vec<Theme> = Vec::new();
        let mut i: usize = 0;
        while i < raw.len()
            invariant
                i <= raw@.len(),
                forall|j: int| 0 <= j < raw@.len() ==> raw@[j]@.len() >= 3,
                final_themes@.len() == i,
                forall|j: int|
                    0 <= j < i ==> {
                        &&& final_themes@[j].bg@ == raw@[j]@[0]@
                        &&& final_themes@[j].fg@ == raw@[j]@[1]@
                        &&& final_themes@[j].text@ == raw@[j]@[2]@
                    },
            decreases raw@.len() - i,
        {
            let triple = &raw[i];
            final_themes.push(
                Theme { bg: triple[0].clone(), fg: triple[1].clone(), text: triple[2].clone() },
            );
            i += 1;
        }
        self.themes = final_themes;
        self.num_themes = self.themes.len() as u32;
    }

    /// Advance to the next theme, wrapping back to the first after the last.
    pub fn next_theme(&mut self)
        requires
            old(self).num_themes >= 1,
        ensures
            final(self).themes == old(self).themes,
            final(self).num_themes == old(self).num_themes,
            final(self).theme_index == if old(self).theme_index < old(self).num_themes - 1 {
                old(self).theme_index + 1
            } else {
                0int
            },
    {
        if self.theme_index < self.num_themes - 1 {
            self.theme_index += 1;
        } else {
            self.theme_index = 0;
        }
    }
}

} // verus!
