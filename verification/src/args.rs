//! What the program is started with, and the places of its files.

use crate::cycle::{active_index, active_point_at, Cycle};
use crate::time::TimeOfDay;
use vstd::prelude::*;
use vstd::string::StringExecFns;

verus! {

/// The seconds to wait between two updates where none are asked for.
pub const DEFAULT_DELAY: u64 = 600;

/// What the program is started with.
#[derive(Clone, Debug)]
pub struct Args {
    /// The folder that holds the schedule, the additional data and the
    /// images.
    pub folder: String,
    /// The seconds to wait between two updates.
    pub delay: u64,
}

/// The place of the file called `name` in `folder`.
pub open spec fn place_in(folder: Seq<char>, name: Seq<char>) -> Seq<char> {
    folder + seq!['/'] + name
}

impl Args {
    /// The arguments for `folder` with the usual delay.
    pub fn new(folder: String) -> (args: Args)
        ensures
            args.folder@ == folder@,
            args.delay == DEFAULT_DELAY,
    {
        Args { folder, delay: DEFAULT_DELAY }
    }

    /// The place of the file called `name` in the folder.
    pub fn file(&self, name: &str) -> (place: String)
        ensures
            place@ == place_in(self.folder@, name@),
    {
        proof {
            reveal_strlit("/");
        }
        let mut place = self.folder.clone();
        place.append("/");
        place.append(name);
        assert("/"@ == seq!['/']);
        place
    }

    /// The place of the schedule, `wallpaper.config` in the folder.
    pub fn schedule_file(&self) -> (place: String)
        ensures
            place@ == place_in(self.folder@, "wallpaper.config"@),
    {
        self.file("wallpaper.config")
    }

    /// The place of the additional data, `data.ini` in the folder.
    pub fn data_file(&self) -> (place: String)
        ensures
            place@ == place_in(self.folder@, "data.ini"@),
    {
        self.file("data.ini")
    }

    /// The wallpaper to change to at time `now` of the day: the place of the
    /// image that is active then, unless that is the wallpaper on show
    /// already.
    pub fn wallpaper_change(&self, cycle: &Cycle, now: TimeOfDay, current: &String) -> (change:
        Option<String>)
        ensures
            ({
                let due = place_in(self.folder@, cycle@[active_index(cycle@, now@)].path);
                if due == current@ {
                    change is None
                } else {
                    change matches Some(place) && place@ == due
                }
            }),
    {
        let due = self.file(active_point_at(cycle, now));
        if due == *current {
            None
        } else {
            Some(due)
        }
    }
}

} // verus!
