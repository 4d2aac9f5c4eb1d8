//! The image that is written to the card of a new host. It travels at the end of the
//! program itself: after the image comes a mark, and after the mark the place where the
//! image starts.

use crate::command::{local, CommandLine, Invocation};
use crate::error::Error;
use crate::text::{chars_of, replace, replaced, trim_range, trimmed};
use sliding_windows::{IterExt, Storage};
use vstd::prelude::*;
use vstd::slice::{slice_subrange, slice_to_vec};

verus! {

/// How many places the search for the mark looks at in one go.
pub const STRETCH: usize = 4096;

/// The mark that ends the image: the letters `PI_END`.
pub open spec fn end_mark() -> Seq<u8> {
    seq![80u8, 73u8, 95u8, 69u8, 78u8, 68u8]
}

/// Builds `end_mark`.
pub fn marker() -> (mark: Vec<u8>)
    ensures
        mark@ == end_mark(),
{
    let mark: Vec<u8> = vec![80u8, 73u8, 95u8, 69u8, 78u8, 68u8];
    assert(mark@ =~= end_mark());
    mark
}

/// Whether `mark` stands in `bytes` at the place `i`.
pub open spec fn mark_at(bytes: Seq<u8>, mark: Seq<u8>, i: int) -> bool {
    0 <= i && i + mark.len() <= bytes.len() && bytes.subrange(i, i + mark.len()) == mark
}

/// Whether the place `i` is the last one at which `mark` stands in `bytes`.
pub open spec fn is_last_mark(bytes: Seq<u8>, mark: Seq<u8>, i: int) -> bool {
    mark_at(bytes, mark, i) && forall|j: int| j > i ==> !mark_at(bytes, mark, j)
}

/// The window number `j` of `size` bytes, counted from the end of `bytes`: each byte
/// with its place, the byte nearest to the end first.
pub open spec fn window(bytes: Seq<u8>, size: int, j: int) -> Seq<(usize, u8)> {
    Seq::new(
        size as nat,
        |k: int| ((bytes.len() - 1 - j - k) as usize, bytes[bytes.len() - 1 - j - k]),
    )
}

/// All the windows of `size` bytes, from the end of `bytes` to its start.
pub open spec fn windows(bytes: Seq<u8>, size: int) -> Seq<Seq<(usize, u8)>> {
    Seq::new((bytes.len() - size + 1) as nat, |j: int| window(bytes, size, j))
}

/// What the vectors of `v` hold, in order.
pub open spec fn window_views(v: Seq<Vec<(usize, u8)>>) -> Seq<Seq<(usize, u8)>> {
    Seq::new(v.len(), |j: int| v[j]@)
}

/// Has the `sliding_windows` crate cut `bytes`, from the end, into windows of `size`
/// bytes (`IterExt::sliding_windows` on the bytes with their places, in reverse, over a
/// `Storage` of that size), and copies each window out. With at least `size` bytes to
/// cut, the crate gives one window for each run of `size` bytes, and the items of a
/// window in the order in which they came. The storage is a vector with room for
/// `size` items of at most sixteen bytes each, which must not be more than a vector
/// can hold.
#[verifier::external_body]
fn windows_from_end(bytes: &[u8], size: usize) -> (out: Vec<Vec<(usize, u8)>>)
    requires
        0 < size <= bytes@.len(),
        size * 16 <= isize::MAX,
    ensures
        window_views(out@) == windows(bytes@, size as int),
{
    let mut storage: Storage<(usize, u8)> = Storage::new(size);
    bytes.iter().copied().enumerate().rev().sliding_windows(&mut storage).map(
        |window| window.iter().copied().collect(),
    ).collect()
}

/// Whether the bytes of the window `w`, read from its end to its start, are `mark`.
pub open spec fn spells(w: Seq<(usize, u8)>, mark: Seq<u8>) -> bool {
    w.len() == mark.len() && forall|k: int|
        0 <= k < mark.len() ==> (#[trigger] w[k]).1 == mark[mark.len() - 1 - k]
}

/// Tells whether the bytes of the window `w`, read from its end to its start, are
/// `mark`.
pub fn is_mark_window(w: &Vec<(usize, u8)>, mark: &[u8]) -> (b: bool)
    ensures
        b == spells(w@, mark@),
{
    let m: usize = mark.len();
    if w.len() != m {
        return false;
    }
    let mut k: usize = 0;
    while k < m
        invariant
            k <= m,
            m == mark@.len(),
            m == w@.len(),
            forall|i: int| 0 <= i < k ==> (#[trigger] w@[i]).1 == mark@[m - 1 - i],
        decreases m - k,
    {
        if w[k].1 != mark[m - 1 - k] {
            return false;
        }
        k += 1;
    }
    true
}

/// A window spells the mark exactly where the mark stands at the place of the window's
/// last item.
pub proof fn lemma_window_spells(bytes: Seq<u8>, mark: Seq<u8>, j: int)
    requires
        mark.len() > 0,
        0 <= j <= bytes.len() - mark.len(),
        bytes.len() <= usize::MAX,
    ensures
        spells(window(bytes, mark.len() as int, j), mark) == mark_at(
            bytes,
            mark,
            bytes.len() - mark.len() - j,
        ),
        window(bytes, mark.len() as int, j)[mark.len() - 1].0 == bytes.len() - mark.len() - j,
{
    let m = mark.len() as int;
    let w = window(bytes, m, j);
    let at = bytes.len() - m - j;
    if spells(w, mark) {
        assert forall|t: int| 0 <= t < m implies bytes.subrange(at, at + m)[t] == mark[t] by {
            assert(w[m - 1 - t].1 == mark[m - 1 - (m - 1 - t)]);
        }
        assert(bytes.subrange(at, at + m) =~= mark);
    }
    if mark_at(bytes, mark, at) {
        assert forall|k: int| 0 <= k < m implies (#[trigger] w[k]).1 == mark[m - 1 - k] by {
            assert(bytes.subrange(at, at + m)[m - 1 - k] == mark[m - 1 - k]);
        }
    }
}

/// Finds the last place at which `mark` stands in `bytes`. The windows are made for one
/// stretch of the bytes at a time, the stretch nearest to the end first, so that they
/// never take more than a fixed amount of memory.
pub fn find_last(bytes: &[u8], mark: &[u8]) -> (found: Option<usize>)
    requires
        mark@.len() * 16 <= isize::MAX,
    ensures
        match found {
            Some(i) => is_last_mark(bytes@, mark@, i as int),
            None => forall|i: int| !mark_at(bytes@, mark@, i),
        },
{
    let n: usize = bytes.len();
    let m: usize = mark.len();
    if n < m {
        return None;
    }
    if m == 0 {
        assert(bytes@.subrange(n as int, n as int) =~= mark@);
        return Some(n);
    }
    let mut top: usize = n - m + 1;
    while top > 0
        invariant
            n == bytes@.len(),
            m == mark@.len(),
            0 < m <= n,
            m * 16 <= isize::MAX,
            top <= n - m + 1,
            forall|p: int| p >= top ==> !mark_at(bytes@, mark@, p),
        decreases top,
    {
        let lo: usize = if top > STRETCH {
            top - STRETCH
        } else {
            0
        };
        let hi: usize = top - 1 + m;
        let stretch = slice_subrange(bytes, lo, hi);
        let found = windows_from_end(stretch, m);
        let ghost s = stretch@;
        assert(window_views(found@).len() == top - lo);
        let mut j: usize = 0;
        while j < found.len()
            invariant
                j <= found.len(),
                found@.len() == top - lo,
                n == bytes@.len(),
                m == mark@.len(),
                0 < m,
                lo < top <= n - m + 1,
                hi == top - 1 + m,
                s == bytes@.subrange(lo as int, hi as int),
                window_views(found@) == windows(s, m as int),
                forall|p: int| p >= top - j ==> !mark_at(bytes@, mark@, p),
            decreases found.len() - j,
        {
            let w = &found[j];
            proof {
                assert(window_views(found@)[j as int] == w@);
                assert(w@ == window(s, m as int, j as int));
                lemma_window_spells(s, mark@, j as int);
                let at = top - 1 - j;
                assert(s.subrange(at - lo, at - lo + m) =~= bytes@.subrange(at, at + m));
            }
            if is_mark_window(w, mark) {
                let place: usize = lo + w[m - 1].0;
                return Some(place);
            }
            j += 1;
        }
        top = lo;
    }
    None
}

/// The number that eight bytes write, the lowest byte first.
pub open spec fn le_value(b: Seq<u8>) -> int {
    b[0] as int + b[1] as int * 0x100 + b[2] as int * 0x1_0000 + b[3] as int * 0x100_0000 + b[4] as int
        * 0x1_0000_0000 + b[5] as int * 0x100_0000_0000 + b[6] as int * 0x1_0000_0000_0000
        + b[7] as int * 0x100_0000_0000_0000
}

/// Reads the number that the eight bytes from `from` on write, the lowest byte first.
pub fn read_le(bytes: &[u8], from: usize) -> (value: u64)
    requires
        from + 8 <= bytes@.len(),
    ensures
        value == le_value(bytes@.subrange(from as int, from + 8)),
{
    let ghost b = bytes@.subrange(from as int, from + 8);
    assert(forall|k: int| 0 <= k < 8 ==> b[k] == bytes@[from + k]);
    let b0: u64 = bytes[from] as u64;
    let b1: u64 = bytes[from + 1] as u64;
    let b2: u64 = bytes[from + 2] as u64;
    let b3: u64 = bytes[from + 3] as u64;
    let b4: u64 = bytes[from + 4] as u64;
    let b5: u64 = bytes[from + 5] as u64;
    let b6: u64 = bytes[from + 6] as u64;
    let b7: u64 = bytes[from + 7] as u64;
    b0 + b1 * 0x100 + b2 * 0x1_0000 + b3 * 0x100_0000 + b4 * 0x1_0000_0000 + b5 * 0x100_0000_0000
        + b6 * 0x1_0000_0000_0000 + b7 * 0x100_0000_0000_0000
}

/// The image that `bytes` carry. After the last mark there must be exactly eight bytes,
/// which write the place where the image starts; the image ends where that mark
/// begins. Bytes without a mark, with more or less than eight bytes after it, or with a
/// start that lies behind the mark carry no image.
pub open spec fn embedded(bytes: Seq<u8>) -> Result<Seq<u8>, Error> {
    let mark = end_mark();
    if !exists|i: int| is_last_mark(bytes, mark, i) {
        Err(Error::Format)
    } else {
        let end = choose|i: int| is_last_mark(bytes, mark, i);
        let tail = bytes.skip(end + mark.len());
        let start = le_value(tail);
        if tail.len() != 8 || start > end {
            Err(Error::Format)
        } else {
            Ok(bytes.subrange(start, end))
        }
    }
}

/// Takes the image out of the bytes that carry it.
pub fn extract(bytes: &[u8]) -> (r: Result<Vec<u8>, Error>)
    ensures
        match r {
            Ok(image) => embedded(bytes@) == Ok::<Seq<u8>, Error>(image@),
            Err(e) => embedded(bytes@) == Err::<Seq<u8>, Error>(e),
        },
{
    let mark = marker();
    let n: usize = bytes.len();
    let end: usize = match find_last(bytes, mark.as_slice()) {
        Some(end) => end,
        None => {
            return Err(Error::Format);
        },
    };
    proof {
        let chosen = choose|i: int| is_last_mark(bytes@, end_mark(), i);
        assert(is_last_mark(bytes@, end_mark(), end as int));
        assert(chosen == end);
    }
    let after: usize = end + 6;
    if n - after != 8 {
        return Err(Error::Format);
    }
    proof {
        assert(bytes@.skip(after as int) =~= bytes@.subrange(after as int, after + 8));
    }
    let wide: u64 = read_le(bytes, after);
    if wide > end as u64 {
        return Err(Error::Format);
    }
    let start: usize = wide as usize;
    Ok(slice_to_vec(slice_subrange(bytes, start, end)))
}

/// The configuration of the wireless network of a new host, with `{ssid}` where the
/// name of the network goes and `{pass}` where its password goes.
pub open spec fn wifi_template() -> Seq<char> {
    "country=GB\nctrl_interface=DIR=/var/run/wpa_supplicant GROUP=netdev\nupdate_config=1\n\nnetwork={\nssid=\"{ssid}\"\npsk=\"{pass}\"\n}"@
}

/// The configuration of the wireless network `ssid` with the password `password`: the
/// name is put into the template first and the password after it.
pub open spec fn wifi(ssid: Seq<char>, password: Seq<char>) -> Seq<char> {
    replaced(replaced(wifi_template(), "{ssid}"@, ssid), "{pass}"@, password)
}

/// Writes the configuration of the wireless network.
pub fn wifi_config(ssid: &str, password: &str) -> (text: String)
    ensures
        text@ == wifi(ssid@, password@),
{
    let template =
        "country=GB\nctrl_interface=DIR=/var/run/wpa_supplicant GROUP=netdev\nupdate_config=1\n\nnetwork={\nssid=\"{ssid}\"\npsk=\"{pass}\"\n}";
    let named = replace(template, "{ssid}", ssid);
    replace(named.as_str(), "{pass}", password)
}

/// The boot options of a new host, from those of the image: what the image has,
/// without the whitespace around it, and the option that turns IPv6 off.
pub open spec fn boot_options(contents: Seq<char>) -> Seq<char> {
    trimmed(contents) + " ipv6.disable=1"@
}

/// Writes the boot options of a new host.
pub fn cmdline(contents: &str) -> (text: String)
    ensures
        text@ == boot_options(contents@),
{
    let chars = chars_of(contents);
    let (from, to) = trim_range(chars.as_slice(), 0, chars.len());
    assert(chars@.subrange(0, chars@.len() as int) =~= chars@);
    let mut text = contents.substring_char(from, to).to_owned();
    text.append(" ipv6.disable=1");
    text
}

/// Writes the table of hosts of a new host named `name`, from that of the image: the
/// name that the image came with gives way to the new one wherever it stands.
pub fn hosts(contents: &str, name: &str) -> (text: String)
    ensures
        text@ == replaced(contents@, "raspberrypi"@, name@),
{
    replace(contents, "raspberrypi", name)
}

/// The command that mounts the partition `src` on the local directory `target`.
pub open spec fn mount_line(src: Seq<char>, target: Seq<char>) -> CommandLine {
    local("mount"@, seq![src, target])
}

/// Builds `mount_line`.
pub fn mount(src: &str, target: &str) -> (r: Invocation)
    ensures
        r@ == mount_line(src@, target@),
{
    let r = Invocation::new("mount").arg(src).arg(target);
    assert(r@.args =~= mount_line(src@, target@).args);
    r
}

/// The command that lets go of the partition that is mounted on `path`.
pub open spec fn umount_line(path: Seq<char>) -> CommandLine {
    local("umount"@, seq![path])
}

/// Builds `umount_line`.
pub fn umount(path: &str) -> (r: Invocation)
    ensures
        r@ == umount_line(path@),
{
    let r = Invocation::new("umount").arg(path);
    assert(r@.args =~= umount_line(path@).args);
    r
}

} // verus!
