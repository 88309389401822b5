//! The decoder process: its fixed argument profile, what each read of its
//! output leads to, and the cached location of its executable.
use vstd::prelude::*;

verus! {

/// The arguments the decoder runs with for source `url`: TCP transport for the
/// source, low-latency flags, MPEG-TS with MPEG-1 video at 640x480, 1000k,
/// 25 frames per second, no B-frames, no audio, packets flushed at once, and
/// the output on standard output.
pub open spec fn decoder_profile(url: Seq<char>) -> Seq<Seq<char>> {
    seq![
        "-rtsp_transport"@, "tcp"@,
        "-fflags"@, "nobuffer"@,
        "-flags"@, "low_delay"@,
        "-i"@, url,
        "-f"@, "mpegts"@,
        "-codec:v"@, "mpeg1video"@,
        "-s"@, "640x480"@,
        "-b:v"@, "1000k"@,
        "-bf"@, "0"@,
        "-q:v"@, "5"@,
        "-r"@, "25"@,
        "-an"@,
        "-flush_packets"@, "1"@,
        "pipe:1"@
    ]
}

/// The contents of a list of strings.
pub open spec fn strings_view(v: Seq<String>) -> Seq<Seq<char>> {
    v.map_values(|s: String| s@)
}

fn push_str(v: &mut Vec<String>, s: &str)
    ensures
        strings_view(final(v)@) == strings_view(old(v)@).push(s@),
{
    v.push(String::from_str(s));
    assert(strings_view(v@) =~= strings_view(old(v)@).push(s@));
}

/// The decoder's arguments for the source `rtsp_url`.
pub fn decoder_args(rtsp_url: &str) -> (r: Vec<String>)
    ensures
        strings_view(r@) == decoder_profile(rtsp_url@),
{
    let mut v: Vec<String> = Vec::new();
    assert(strings_view(v@) =~= Seq::<Seq<char>>::empty());
    push_str(&mut v, "-rtsp_transport");
    push_str(&mut v, "tcp");
    push_str(&mut v, "-fflags");
    push_str(&mut v, "nobuffer");
    push_str(&mut v, "-flags");
    push_str(&mut v, "low_delay");
    push_str(&mut v, "-i");
    push_str(&mut v, rtsp_url);
    push_str(&mut v, "-f");
    push_str(&mut v, "mpegts");
    push_str(&mut v, "-codec:v");
    push_str(&mut v, "mpeg1video");
    push_str(&mut v, "-s");
    push_str(&mut v, "640x480");
    push_str(&mut v, "-b:v");
    push_str(&mut v, "1000k");
    push_str(&mut v, "-bf");
    push_str(&mut v, "0");
    push_str(&mut v, "-q:v");
    push_str(&mut v, "5");
    push_str(&mut v, "-r");
    push_str(&mut v, "25");
    push_str(&mut v, "-an");
    push_str(&mut v, "-flush_packets");
    push_str(&mut v, "1");
    push_str(&mut v, "pipe:1");
    assert(strings_view(v@) =~= decoder_profile(rtsp_url@));
    v
}

/// The size of one read of the decoder's output.
pub const READ_CHUNK: usize = 32768;

/// What the decoder loop does after one read of its output.
#[derive(Clone, Copy, Debug, PartialEq, Eq, Structural)]
pub enum DecoderStep {
    /// Send the first `n` bytes read as one chunk, and read again.
    Publish(usize),
    /// Stop reading; the process is then killed and reaped.
    Finish,
}

/// The step after a read that returned `read`: `Some(n)` for `n` bytes,
/// `None` for a read error. A read of zero bytes is the end of the stream.
pub fn decoder_step(read: Option<usize>) -> (r: DecoderStep)
    ensures
        r == (match read {
            Some(n) => if n > 0 { DecoderStep::Publish(n) } else { DecoderStep::Finish },
            None => DecoderStep::Finish,
        }),
{
    match read {
        Some(n) => if n > 0 { DecoderStep::Publish(n) } else { DecoderStep::Finish },
        None => DecoderStep::Finish,
    }
}

/// The decoder's executable: the one in `cache` if it is set, else the one
/// that `find` reports, which is then kept in `cache`. `find` runs at most once
/// per cache.
pub fn get_ffmpeg_path<F: FnOnce() -> String>(cache: &mut Option<String>, find: F) -> (r: String)
    requires
        *old(cache) is None ==> find.requires(()),
    ensures
        *old(cache) is Some ==> r == (*old(cache))->Some_0 && *final(cache) == *old(cache),
        *old(cache) is None ==> find.ensures((), r) && *final(cache) == Some(r),
{
    match cache {
        Some(p) => p.clone(),
        None => {
            let p = find();
            *cache = Some(p.clone());
            p
        },
    }
}

} // verus!
