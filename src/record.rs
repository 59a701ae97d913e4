use vstd::prelude::*;

verus! {

/// The mathematical value of a track identity: (track, artist, album).
pub type KeyView = (Seq<char>, Seq<char>, Seq<char>);

/// One listening event as decoded from an export file.
pub struct StreamEntry {
    pub ts: String,
    pub ms_played: u64,
    pub master_metadata_track_name: Option<String>,
    pub master_metadata_album_artist_name: Option<String>,
    pub master_metadata_album_album_name: Option<String>,
}

/// Canonical identity of a track; equality is exact on the three strings.
pub struct TrackKey {
    pub track: String,
    pub artist: String,
    pub album: String,
}

impl View for TrackKey {
    type V = KeyView;

    open spec fn view(&self) -> KeyView {
        (self.track@, self.artist@, self.album@)
    }
}

/// An absent artist or album name counts as the empty string.
pub open spec fn name_or_empty(o: Option<String>) -> Seq<char> {
    match o {
        Some(s) => s@,
        None => Seq::empty(),
    }
}

/// The identity of a record: none when the track name is absent or empty.
pub open spec fn entry_key(e: StreamEntry) -> Option<KeyView> {
    match e.master_metadata_track_name {
        Some(t) => if t@.len() == 0 {
            None
        } else {
            Some(
                (
                    t@,
                    name_or_empty(e.master_metadata_album_artist_name),
                    name_or_empty(e.master_metadata_album_album_name),
                ),
            )
        },
        None => None,
    }
}

/// The year of a timestamp: its first four characters, or "????" when shorter.
pub open spec fn year_of(ts: Seq<char>) -> Seq<char> {
    if ts.len() >= 4 {
        ts.subrange(0, 4)
    } else {
        seq!['?', '?', '?', '?']
    }
}

fn name_or_default(o: &Option<String>) -> (r: String)
    ensures
        r@ == name_or_empty(*o),
{
    match o {
        Some(s) => s.clone(),
        None => String::new(),
    }
}

impl TrackKey {
    pub fn clone_key(&self) -> (r: TrackKey)
        ensures
            r == *self,
    {
        TrackKey { track: self.track.clone(), artist: self.artist.clone(), album: self.album.clone() }
    }

    /// Exact equality of the three strings.
    pub fn same(&self, other: &TrackKey) -> (r: bool)
        ensures
            r == (self@ == other@),
    {
        self.track == other.track && self.artist == other.artist && self.album == other.album
    }
}

impl StreamEntry {
    /// Resolves the record's track identity.
    pub fn key(&self) -> (r: Option<TrackKey>)
        ensures
            match r {
                Some(k) => entry_key(*self) == Some(k@),
                None => entry_key(*self) is None,
            },
    {
        match &self.master_metadata_track_name {
            None => None,
            Some(t) => {
                if t.as_str().is_empty() {
                    None
                } else {
                    Some(
                        TrackKey {
                            track: t.clone(),
                            artist: name_or_default(&self.master_metadata_album_artist_name),
                            album: name_or_default(&self.master_metadata_album_album_name),
                        },
                    )
                }
            },
        }
    }

    /// The year bucket of the record.
    pub fn year(&self) -> (r: String)
        ensures
            r@ == year_of(self.ts@),
    {
        let s = self.ts.as_str();
        if s.unicode_len() >= 4 {
            String::from_str(s.substring_char(0, 4))
        } else {
            proof {
                reveal_strlit("????");
            }
            String::from_str("????")
        }
    }
}

fn clone_opt(o: &Option<String>) -> (r: Option<String>)
    ensures
        r == *o,
{
    match o {
        Some(s) => Some(s.clone()),
        None => None,
    }
}

/// A copy of a record.
pub fn clone_entry(e: &StreamEntry) -> (r: StreamEntry)
    ensures
        r == *e,
{
    StreamEntry {
        ts: e.ts.clone(),
        ms_played: e.ms_played,
        master_metadata_track_name: clone_opt(&e.master_metadata_track_name),
        master_metadata_album_artist_name: clone_opt(&e.master_metadata_album_artist_name),
        master_metadata_album_album_name: clone_opt(&e.master_metadata_album_album_name),
    }
}

} // verus!
