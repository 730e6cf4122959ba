use vstd::prelude::*;

use crate::text::{contains, contains_text, split_words, trim_dots, trim_trailing_dots, views, words};
use crate::youtube::VideoInfo;

verus! {

/// What a session is casting: the video now playing, the bound device and
/// whether playback runs.
#[derive(Clone, Debug)]
pub struct CastStatus {
    pub current_video: Option<VideoInfo>,
    pub cast_device: Option<String>,
    pub is_playing: bool,
}

impl CastStatus {
    /// The status of a session that has cast nothing yet.
    pub open spec fn is_empty(&self) -> bool {
        self.current_video is None && self.cast_device is None && !self.is_playing
    }
}

impl Default for CastStatus {
    fn default() -> (r: Self)
        ensures
            r.is_empty(),
    {
        CastStatus { current_video: None, cast_device: None, is_playing: false }
    }
}

/// A cast device found on the local network.
#[derive(Clone, Debug)]
pub struct ChromecastDevice {
    pub name: String,
    pub host: String,
    pub port: u16,
}

/// Why a cast could not be started or stopped.
#[derive(Clone, Copy, Debug, PartialEq, Eq, Structural)]
pub enum CastError {
    /// No device was named and none was found on the network.
    NoDevicesAvailable,
    /// The named device was not found on the network.
    DeviceNotFound,
    /// No device was named and none is connected.
    NoConnectedDevices,
    /// The named device is not connected.
    NotConnected,
}

/// The device to cast to: the one named, else the first one found.
pub fn select_device(requested: Option<String>, available: &Vec<String>) -> (r: Result<String, CastError>)
    ensures
        match requested {
            Some(name) => r == Ok::<String, CastError>(name),
            None => if available@.len() == 0 {
                r == Err::<String, CastError>(CastError::NoDevicesAvailable)
            } else {
                r is Ok && r->Ok_0@ == available@[0]@
            },
        },
{
    match requested {
        Some(name) => Ok(name),
        None => {
            if available.len() == 0 {
                Err(CastError::NoDevicesAvailable)
            } else {
                Ok(available[0].clone())
            }
        },
    }
}

/// The names of the devices found, in discovery order.
pub fn device_names(devices: &Vec<ChromecastDevice>) -> (r: Vec<String>)
    ensures
        r@.len() == devices@.len(),
        forall|i: int| 0 <= i < devices@.len() ==> #[trigger] r@[i]@ == devices@[i].name@,
{
    let mut r: Vec<String> = Vec::new();
    let mut i: usize = 0;
    while i < devices.len()
        invariant
            i <= devices@.len(),
            r@.len() == i,
            forall|j: int| 0 <= j < i ==> #[trigger] r@[j]@ == devices@[j].name@,
        decreases devices@.len() - i,
    {
        r.push(devices[i].name.clone());
        i = i + 1;
    }
    r
}

/// The first device found whose name is `name`.
pub fn find_device<'a>(devices: &'a Vec<ChromecastDevice>, name: &str) -> (r: Option<&'a ChromecastDevice>)
    ensures
        match r {
            Some(d) => exists|i: int| 0 <= i < devices@.len() && devices@[i] == *d && d.name@ == name@
                && forall|j: int| 0 <= j < i ==> #[trigger] devices@[j].name@ != name@,
            None => forall|j: int| 0 <= j < devices@.len() ==> #[trigger] devices@[j].name@ != name@,
        },
{
    let wanted = name.to_owned();
    let mut i: usize = 0;
    while i < devices.len()
        invariant
            i <= devices@.len(),
            wanted@ == name@,
            forall|j: int| 0 <= j < i ==> #[trigger] devices@[j].name@ != name@,
        decreases devices@.len() - i,
    {
        if devices[i].name == wanted {
            return Some(&devices[i]);
        }
        i = i + 1;
    }
    None
}

/// The address a cast receiver plays a video from.
pub fn watch_url(video_id: &str) -> (r: String)
    ensures
        r@ == "https://www.youtube.com/watch?v="@ + video_id@,
{
    let mut s = "https://www.youtube.com/watch?v=".to_owned();
    s.append(video_id);
    s
}

/// The title shown on the receiver: the video's title, or "YouTube Video".
pub fn cast_title(video: &VideoInfo) -> (r: String)
    ensures
        r@ == match video.title {
            Some(t) => t@,
            None => "YouTube Video"@,
        },
{
    match &video.title {
        Some(t) => t.clone(),
        None => "YouTube Video".to_owned(),
    }
}

/// The devices connected so far, by name, each with the address it was
/// reached at. Entries are kept for the life of the process.
#[derive(Clone, Debug)]
pub struct CastConnections {
    entries: Vec<ChromecastDevice>,
}

impl CastConnections {
    /// The connected devices, in the order they were first reached.
    pub closed spec fn devices(&self) -> Seq<ChromecastDevice> {
        self.entries@
    }

    /// No name is connected twice.
    pub open spec fn wf(&self) -> bool {
        forall|i: int, j: int| 0 <= i < j < self.devices().len()
            ==> #[trigger] self.devices()[i].name@ != #[trigger] self.devices()[j].name@
    }

    /// Whether a device named `name` is connected.
    pub open spec fn knows(&self, name: Seq<char>) -> bool {
        exists|i: int| 0 <= i < self.devices().len() && #[trigger] self.devices()[i].name@ == name
    }

    /// No device connected yet.
    pub fn new() -> (r: Self)
        ensures
            r.wf(),
            r.devices().len() == 0,
    {
        CastConnections { entries: Vec::new() }
    }

    /// The address of the connected device named `name`.
    pub fn lookup(&self, name: &str) -> (r: Option<(String, u16)>)
        requires
            self.wf(),
        ensures
            r is Some <==> self.knows(name@),
            match r {
                Some(a) => exists|i: int| 0 <= i < self.devices().len() && self.devices()[i].name@ == name@
                    && a.0@ == self.devices()[i].host@ && a.1 == self.devices()[i].port,
                None => true,
            },
    {
        assert(self.devices() == self.entries@);
        match find_device(&self.entries, name) {
            Some(d) => Some((d.host.clone(), d.port)),
            None => {
                assert forall|i: int| 0 <= i < self.devices().len() implies #[trigger] self.devices()[i].name@ != name@ by {
                    assert(self.entries@[i].name@ != name@);
                }
                None
            },
        }
    }

    /// Connects `device` unless a device of that name is connected already;
    /// returns whether it was added.
    pub fn remember(&mut self, device: ChromecastDevice) -> (r: bool)
        requires
            old(self).wf(),
        ensures
            final(self).wf(),
            r == !old(self).knows(device.name@),
            r ==> final(self).devices() == old(self).devices().push(device),
            !r ==> final(self).devices() == old(self).devices(),
    {
        assert(self.devices() == self.entries@);
        match find_device(&self.entries, device.name.as_str()) {
            Some(_) => false,
            None => {
                let ghost pre = self.entries@;
                assert forall|i: int| 0 <= i < pre.len() implies #[trigger] pre[i].name@ != device.name@ by {
                    assert(self.entries@[i].name@ != device.name@);
                }
                self.entries.push(device);
                assert(self.devices() == pre.push(device));
                true
            },
        }
    }

    /// The name of the first device connected, if any.
    pub fn first_device(&self) -> (r: Option<String>)
        ensures
            match r {
                Some(n) => self.devices().len() > 0 && n@ == self.devices()[0].name@,
                None => self.devices().len() == 0,
            },
    {
        if self.entries.len() == 0 {
            None
        } else {
            Some(self.entries[0].name.clone())
        }
    }
}

/// The port cast devices listen on.
pub const CAST_PORT: u16 = 8009;

/// The lines of `s`, as `str::lines` splits them.
pub uninterp spec fn lines_of(s: Seq<char>) -> Seq<Seq<char>>;

/// Relies on str::lines: splits at each newline, drops the line endings
/// and yields no empty line after a final newline.
#[verifier::external_body]
fn text_lines(s: &str) -> (r: Vec<String>)
    ensures
        views(r@) == lines_of(s@),
{
    s.lines().map(|l| l.to_string()).collect()
}

/// The name and host that a line of a discovery listing announces: a line
/// naming the cast service with at least five words gives its first word
/// as the name and its fifth, without trailing dots, as the host.
pub open spec fn device_line(line: Seq<char>) -> Option<(Seq<char>, Seq<char>)> {
    if contains_text(line, "_googlecast._tcp.local."@) && words(line).len() >= 5 {
        Some((words(line)[0], trim_dots(words(line)[4])))
    } else {
        None
    }
}

/// The devices that the lines of a discovery listing announce, in order.
pub open spec fn announced(lines: Seq<Seq<char>>) -> Seq<(Seq<char>, Seq<char>)>
    decreases lines.len(),
{
    if lines.len() == 0 {
        Seq::<(Seq<char>, Seq<char>)>::empty()
    } else {
        match device_line(lines.last()) {
            Some(d) => announced(lines.drop_last()).push(d),
            None => announced(lines.drop_last()),
        }
    }
}

/// `devices` are the announced name and host pairs `a`, each on the cast port.
pub open spec fn devices_match(devices: Seq<ChromecastDevice>, a: Seq<(Seq<char>, Seq<char>)>) -> bool {
    &&& devices.len() == a.len()
    &&& forall|i: int| 0 <= i < a.len() ==> {
        &&& #[trigger] devices[i].name@ == a[i].0
        &&& devices[i].host@ == a[i].1
        &&& devices[i].port == CAST_PORT
    }
}

/// The device a line of a discovery listing announces, if any.
pub fn parse_device_line(line: &str) -> (r: Option<ChromecastDevice>)
    ensures
        match device_line(line@) {
            Some(d) => r is Some && r->0.name@ == d.0 && r->0.host@ == d.1 && r->0.port == CAST_PORT,
            None => r is None,
        },
{
    if !contains(line, "_googlecast._tcp.local.") {
        return None;
    }
    let parts = split_words(line);
    if parts.len() < 5 {
        return None;
    }
    proof {
        assert(views(parts@)[0] == parts@[0]@);
        assert(views(parts@)[4] == parts@[4]@);
    }
    let name = parts[0].clone();
    let host = trim_trailing_dots(parts[4].as_str());
    Some(ChromecastDevice { name, host, port: CAST_PORT })
}

/// The devices that the given lines of a discovery listing announce.
pub fn parse_discovery_lines(lines: &Vec<String>) -> (r: Vec<ChromecastDevice>)
    ensures
        devices_match(r@, announced(views(lines@))),
{
    let mut r: Vec<ChromecastDevice> = Vec::new();
    let mut k: usize = 0;
    while k < lines.len()
        invariant
            k <= lines@.len(),
            devices_match(r@, announced(views(lines@).take(k as int))),
        decreases lines@.len() - k,
    {
        let ghost part = views(lines@).take(k as int + 1);
        proof {
            assert(part.drop_last() =~= views(lines@).take(k as int));
            assert(part.last() == lines@[k as int]@);
        }
        match parse_device_line(lines[k].as_str()) {
            Some(d) => {
                r.push(d);
            },
            None => {},
        }
        proof {
            let a = announced(part);
            assert forall|i: int| 0 <= i < a.len() implies {
                &&& #[trigger] r@[i].name@ == a[i].0
                &&& r@[i].host@ == a[i].1
                &&& r@[i].port == CAST_PORT
            } by {
                let a0 = announced(views(lines@).take(k as int));
                if i < a0.len() {
                    assert(r@[i].name@ == a0[i].0);
                }
            }
        }
        k = k + 1;
    }
    proof {
        assert(views(lines@).take(lines@.len() as int) =~= views(lines@));
    }
    r
}

/// The devices that a discovery listing announces, line by line.
pub fn parse_discovery_output(output: &str) -> (r: Vec<ChromecastDevice>)
    ensures
        devices_match(r@, announced(lines_of(output@))),
{
    let lines = text_lines(output);
    parse_discovery_lines(&lines)
}

} // verus!
