//! The log files of containers: one stamped line for each piece of output.

use crate::calendar::epoch_to_ymd_hms;
use crate::text::push_decimal_padded;
use vstd::prelude::*;
use vstd::string::*;

verus! {

/// A date as `YYYY-MM-DD`.
pub open spec fn date_text(y: nat, m: nat, d: nat) -> Seq<char> {
    crate::text::dec_padded(y, 4) + seq!['-'] + crate::text::dec_padded(m, 2) + seq!['-']
        + crate::text::dec_padded(d, 2)
}

/// A time of day as `hh:mm:ss`.
pub open spec fn time_text(h: nat, m: nat, s: nat) -> Seq<char> {
    crate::text::dec_padded(h, 2) + seq![':'] + crate::text::dec_padded(m, 2) + seq![':']
        + crate::text::dec_padded(s, 2)
}

/// The moment `secs` seconds and `nanos` nanoseconds after the Unix epoch, in UTC, as
/// `YYYY-MM-DDThh:mm:ss.nnnnnnnnnZ`. The year is taken modulo 2^32.
pub open spec fn rfc3339_nano(secs: nat, nanos: nat) -> Seq<char> {
    let (y, m, d) = crate::calendar::date_of((secs / 86400) as int);
    let t = secs % 86400;
    date_text((y % 0x1_0000_0000) as nat, m as nat, d as nat) + seq!['T'] + time_text(
        t / 3600,
        t / 60 % 60,
        t % 60,
    ) + seq!['.'] + crate::text::dec_padded(nanos, 9) + seq!['Z']
}

/// Whether `data` ends in a newline.
pub open spec fn ends_line(data: Seq<u8>) -> bool {
    data.len() > 0 && data.last() == 10
}

/// A log line: stamp, stream, `F` for a full line or `P` for a partial one, and the data, closed by
/// a newline.
pub open spec fn log_line(stamp: Seq<char>, stream: Seq<char>, data: Seq<u8>) -> Seq<u8> {
    let tag = if ends_line(data) {
        'F'
    } else {
        'P'
    };
    let head = stamp + seq![' '] + stream + seq![' ', tag, ' '];
    if ends_line(data) {
        vstd::utf8::encode_utf8(head) + data
    } else {
        vstd::utf8::encode_utf8(head) + data.push(10)
    }
}

/// Writes the date at the end of `s`.
fn push_date(s: &mut String, y: u32, m: u32, d: u32)
    ensures
        final(s)@ == old(s)@ + date_text(y as nat, m as nat, d as nat),
{
    push_decimal_padded(s, y as u64, 4);
    s.push('-');
    push_decimal_padded(s, m as u64, 2);
    s.push('-');
    push_decimal_padded(s, d as u64, 2);
    assert(s@ =~= old(s)@ + date_text(y as nat, m as nat, d as nat));
}

/// Writes the time of day at the end of `s`.
fn push_time(s: &mut String, h: u32, m: u32, sec: u32)
    ensures
        final(s)@ == old(s)@ + time_text(h as nat, m as nat, sec as nat),
{
    push_decimal_padded(s, h as u64, 2);
    s.push(':');
    push_decimal_padded(s, m as u64, 2);
    s.push(':');
    push_decimal_padded(s, sec as u64, 2);
    assert(s@ =~= old(s)@ + time_text(h as nat, m as nat, sec as nat));
}

/// Writes the moment at the end of `s`.
fn push_rfc3339_nano(s: &mut String, secs: u64, nanos: u32)
    ensures
        final(s)@ == old(s)@ + rfc3339_nano(secs as nat, nanos as nat),
{
    let (y, mo, d, h, mi, sec) = epoch_to_ymd_hms(secs);
    let ghost t = secs as nat % 86400;
    assert(h == t / 3600 && mi == t / 60 % 60 && sec == t % 60);
    push_date(s, y, mo, d);
    s.push('T');
    push_time(s, h, mi, sec);
    s.push('.');
    push_decimal_padded(s, nanos as u64, 9);
    s.push('Z');
    assert(s@ =~= old(s)@ + rfc3339_nano(secs as nat, nanos as nat));
}

/// Formats one log line of the stream `stream`, written at `secs` seconds and `nanos` nanoseconds
/// after the Unix epoch.
pub fn cri_log_line(stream: &str, data: &[u8], secs: u64, nanos: u32) -> (r: Vec<u8>)
    ensures
        r@ == log_line(rfc3339_nano(secs as nat, nanos as nat), stream@, data@),
{
    let full = data.len() > 0 && data[data.len() - 1] == 10;
    let mut head = String::new();
    push_rfc3339_nano(&mut head, secs, nanos);
    head.push(' ');
    head.append(stream);
    head.push(' ');
    head.push(if full { 'F' } else { 'P' });
    head.push(' ');
    assert(head@ =~= rfc3339_nano(secs as nat, nanos as nat) + seq![' '] + stream@ + seq![
        ' ',
        if full {
            'F'
        } else {
            'P'
        },
        ' ',
    ]);
    let mut out = head.as_str().as_bytes_vec();
    out.extend_from_slice(data);
    if !full {
        out.push(10);
    }
    assert(out@ =~= log_line(rfc3339_nano(secs as nat, nanos as nat), stream@, data@));
    out
}

/// Bytes cut into lines, each with its newline, and what follows the last newline.
pub open spec fn cut(data: Seq<u8>) -> (Seq<Seq<u8>>, Seq<u8>)
    decreases data.len(),
{
    if data.len() == 0 {
        (Seq::empty(), Seq::empty())
    } else {
        let (lines, rest) = cut(data.drop_last());
        if data.last() == 10 {
            (lines.push(rest.push(10)), Seq::empty())
        } else {
            (lines, rest.push(data.last()))
        }
    }
}

/// The log lines of the lines, all written at the same time.
pub open spec fn log_lines(stamp: Seq<char>, stream: Seq<char>, lines: Seq<Seq<u8>>) -> Seq<Seq<u8>> {
    lines.map_values(|line: Seq<u8>| log_line(stamp, stream, line))
}

/// Output on its way to a log. It is logged line by line; what does not end in a newline yet is held
/// back.
#[derive(Debug)]
pub struct Tee {
    held: Vec<u8>,
}

impl View for Tee {
    type V = Seq<u8>;

    closed spec fn view(&self) -> Seq<u8> {
        self.held@
    }
}

impl Tee {
    /// Only what follows the last newline is held back.
    pub open spec fn wf(self) -> bool {
        !self@.contains(10)
    }

    /// Nothing is held back yet.
    pub fn new() -> (r: Tee)
        ensures
            r.wf(),
            r@ == Seq::<u8>::empty(),
    {
        let held: Vec<u8> = Vec::new();
        assert(held@ =~= Seq::<u8>::empty());
        Tee { held }
    }

    /// Takes output that was written to `stream` and read at `secs` seconds and `nanos` nanoseconds
    /// after the Unix epoch. The lines that it completes come back as log lines.
    pub fn feed(&mut self, stream: &str, chunk: &[u8], secs: u64, nanos: u32) -> (r: Vec<Vec<u8>>)
        requires
            old(self).wf(),
        ensures
            final(self).wf(),
            r.deep_view() == log_lines(
                rfc3339_nano(secs as nat, nanos as nat),
                stream@,
                cut(old(self)@ + chunk@).0,
            ),
            final(self)@ == cut(old(self)@ + chunk@).1,
    {
        let mut lines: Vec<Vec<u8>> = Vec::new();
        let ghost stamp = rfc3339_nano(secs as nat, nanos as nat);
        let mut i: usize = 0;
        proof {
            lemma_cut_without_newline(self@);
            assert(self@ + chunk@.take(0) =~= self@);
            assert(lines.deep_view() =~= log_lines(stamp, stream@, Seq::empty()));
        }
        while i < chunk.len()
            invariant
                i <= chunk@.len(),
                stamp == rfc3339_nano(secs as nat, nanos as nat),
                lines.deep_view() == log_lines(stamp, stream@, cut(old(self)@ + chunk@.take(i as int)).0),
                self@ == cut(old(self)@ + chunk@.take(i as int)).1,
                !self@.contains(10),
            decreases chunk@.len() - i,
        {
            let ghost before = old(self)@ + chunk@.take(i as int);
            let ghost after = old(self)@ + chunk@.take(i + 1);
            let ghost held = self@;
            let ghost so_far = lines.deep_view();
            let b: u8 = chunk[i];
            proof {
                assert(after =~= before.push(b));
                assert(after.drop_last() =~= before);
            }
            self.held.push(b);
            assert(self@ =~= held.push(b));
            if b == 10 {
                let line = cri_log_line(stream, self.held.as_slice(), secs, nanos);
                assert(line.deep_view() =~= line@);
                lines.push(line);
                self.held.clear();
                assert(self@ =~= Seq::empty());
                assert(lines.deep_view() =~= so_far.push(log_line(stamp, stream@, held.push(10))));
                assert(log_lines(stamp, stream@, cut(after).0) =~= so_far.push(
                    log_line(stamp, stream@, held.push(10)),
                ));
            } else {
                assert forall|j: int| 0 <= j < self@.len() implies self@[j] != 10 by {
                    if j < held.len() {
                        assert(held.contains(held[j]));
                    }
                }
            }
            i = i + 1;
        }
        assert(chunk@.take(i as int) =~= chunk@);
        lines
    }

    /// The output has ended: what was held back comes back as a partial line, if there is anything.
    pub fn end(self, stream: &str, secs: u64, nanos: u32) -> (r: Option<Vec<u8>>)
        ensures
            match last_line(rfc3339_nano(secs as nat, nanos as nat), stream@, self@) {
                Some(line) => r matches Some(x) && x@ == line,
                None => r is None,
            },
    {
        if self.held.len() == 0 {
            None
        } else {
            Some(cri_log_line(stream, self.held.as_slice(), secs, nanos))
        }
    }
}

/// The log line for output that was held back when it ended, if there is any.
pub open spec fn last_line(stamp: Seq<char>, stream: Seq<char>, held: Seq<u8>) -> Option<Seq<u8>> {
    if held.len() == 0 {
        None
    } else {
        Some(log_line(stamp, stream, held))
    }
}

/// The pieces, one after the other.
pub open spec fn joined(pieces: Seq<Seq<u8>>) -> Seq<u8>
    decreases pieces.len(),
{
    if pieces.len() == 0 {
        Seq::empty()
    } else {
        joined(pieces.drop_last()) + pieces.last()
    }
}

/// What a tee makes of the chunks fed to it: the lines completed on the way, and what it then holds.
pub open spec fn teed(chunks: Seq<Seq<u8>>) -> (Seq<Seq<u8>>, Seq<u8>)
    decreases chunks.len(),
{
    if chunks.len() == 0 {
        (Seq::empty(), Seq::empty())
    } else {
        let (lines, held) = teed(chunks.drop_last());
        (lines + cut(held + chunks.last()).0, cut(held + chunks.last()).1)
    }
}

/// However output is cut into chunks, the lines logged of it are its lines, and what is held back at
/// the end is what follows its last newline.
pub proof fn law_chunks_do_not_matter(chunks: Seq<Seq<u8>>)
    ensures
        teed(chunks) == cut(joined(chunks)),
    decreases chunks.len(),
{
    if chunks.len() > 0 {
        law_chunks_do_not_matter(chunks.drop_last());
        lemma_cut_add(joined(chunks.drop_last()), chunks.last());
    }
}

/// No byte of the output is lost, moved or invented. A line ends in its only newline, so that it is
/// logged as a full one; what is left has none, so that it is logged as a partial one.
pub proof fn law_lines_are_the_output(data: Seq<u8>)
    ensures
        joined(cut(data).0) + cut(data).1 == data,
        forall|i: int|
            0 <= i < cut(data).0.len() ==> ends_line(#[trigger] cut(data).0[i])
                && !cut(data).0[i].drop_last().contains(10),
        !cut(data).1.contains(10),
        !ends_line(cut(data).1),
    decreases data.len(),
{
    if data.len() > 0 {
        law_lines_are_the_output(data.drop_last());
        let (lines, rest) = cut(data.drop_last());
        assert(data =~= (joined(lines) + rest).push(data.last()));
        if data.last() == 10 {
            assert(lines.push(rest.push(10)).drop_last() =~= lines);
            assert(rest.push(10).drop_last() =~= rest);
            assert(joined(lines) + rest.push(10) + Seq::<u8>::empty() =~= data);
            assert forall|i: int| 0 <= i < cut(data).0.len() implies ends_line(
                #[trigger] cut(data).0[i],
            ) && !cut(data).0[i].drop_last().contains(10) by {
                if i < lines.len() {
                    assert(cut(data).0[i] == lines[i]);
                }
            }
        } else {
            assert(joined(lines) + rest.push(data.last()) =~= data);
            assert forall|j: int| 0 <= j < rest.push(data.last()).len() implies rest.push(
                data.last(),
            )[j] != 10 by {
                if j < rest.len() {
                    assert(rest.contains(rest[j]));
                }
            }
        }
    }
}

/// Bytes without a newline are no line yet.
proof fn lemma_cut_without_newline(data: Seq<u8>)
    requires
        !data.contains(10),
    ensures
        cut(data) == (Seq::<Seq<u8>>::empty(), data),
    decreases data.len(),
{
    if data.len() > 0 {
        assert(data.contains(data.last()));
        assert(!data.drop_last().contains(10)) by {
            if data.drop_last().contains(10) {
                let j = choose|j: int| 0 <= j < data.drop_last().len() && data.drop_last()[j] == 10;
                assert(data[j] == 10);
            }
        }
        lemma_cut_without_newline(data.drop_last());
        assert(data.drop_last().push(data.last()) =~= data);
    }
}

/// Cutting may stop anywhere and go on with what was left.
proof fn lemma_cut_add(a: Seq<u8>, b: Seq<u8>)
    ensures
        cut(a + b).0 == cut(a).0 + cut(cut(a).1 + b).0,
        cut(a + b).1 == cut(cut(a).1 + b).1,
    decreases b.len(),
{
    if b.len() == 0 {
        law_lines_are_the_output(a);
        lemma_cut_without_newline(cut(a).1);
        assert(a + b =~= a);
        assert(cut(a).1 + b =~= cut(a).1);
    } else {
        lemma_cut_add(a, b.drop_last());
        assert((a + b).drop_last() =~= a + b.drop_last());
        assert((cut(a).1 + b).drop_last() =~= cut(a).1 + b.drop_last());
        assert(cut(a + b).0 =~= cut(a).0 + cut(cut(a).1 + b).0);
    }
}

/// Every log line ends in a newline, and its data are unchanged before it.
pub proof fn law_log_line_is_closed(stamp: Seq<char>, stream: Seq<char>, data: Seq<u8>)
    ensures
        ends_line(log_line(stamp, stream, data)),
        ends_line(data) ==> data.is_suffix_of(log_line(stamp, stream, data)),
        !ends_line(data) ==> data.push(10).is_suffix_of(log_line(stamp, stream, data)),
{
}

/// Whether a container writes a log: it needs both a directory and a file name.
pub fn wants_log(log_dir: &str, log_path: &str) -> (r: bool)
    ensures
        r == (log_dir@.len() > 0 && log_path@.len() > 0),
{
    !log_dir.is_empty() && !log_path.is_empty()
}

/// A moment is told as its date and its time of day, each number in its place and with all its
/// digits, and its nanoseconds: the numbers read back. The date is the one on which so many whole
/// days have gone by since the epoch.
pub proof fn law_stamp_tells_the_moment(secs: nat, nanos: nat, y: int, m: int, d: int)
    requires
        crate::calendar::is_date(y, m, d),
        y < 10000,
        crate::calendar::day_number(y, m, d) - crate::calendar::day_number(1970, 1, 1) == secs
            / 86400,
        nanos < 1_000_000_000,
    ensures
        ({
            let s = rfc3339_nano(secs, nanos);
            &&& s.len() == 30
            &&& crate::text::digits_value(s.subrange(0, 4)) == y
            &&& crate::text::digits_value(s.subrange(5, 7)) == m
            &&& crate::text::digits_value(s.subrange(8, 10)) == d
            &&& crate::text::digits_value(s.subrange(11, 13)) == secs / 3600 % 24
            &&& crate::text::digits_value(s.subrange(14, 16)) == secs / 60 % 60
            &&& crate::text::digits_value(s.subrange(17, 19)) == secs % 60
            &&& crate::text::digits_value(s.subrange(20, 29)) == nanos
            &&& s[4] == '-' && s[7] == '-' && s[10] == 'T' && s[13] == ':' && s[16] == ':' && s[19]
                == '.' && s[29] == 'Z'
        }),
{
    let days = (secs / 86400) as int;
    let p = (y, m, d);
    assert(crate::calendar::is_date(p.0, p.1, p.2));
    let q = crate::calendar::date_of(days);
    crate::calendar::law_dates_are_distinct(q.0, q.1, q.2, y, m, d);
    let t = secs % 86400;
    assert(t / 3600 == secs / 3600 % 24);
    assert(t / 60 % 60 == secs / 60 % 60);
    assert(t % 60 == secs % 60);
    assert(y % 0x1_0000_0000 == y);
    lemma_stamp(y as nat, m as nat, d as nat, t / 3600, t / 60 % 60, t % 60, nanos);
}

/// Numbers that fit their places are found there.
proof fn lemma_stamp(y: nat, m: nat, d: nat, h: nat, mi: nat, sec: nat, nanos: nat)
    requires
        y < 10000,
        m < 100,
        d < 100,
        h < 100,
        mi < 100,
        sec < 100,
        nanos < 1_000_000_000,
    ensures
        ({
            let s = date_text(y, m, d) + seq!['T'] + time_text(h, mi, sec) + seq!['.']
                + crate::text::dec_padded(nanos, 9) + seq!['Z'];
            &&& s.len() == 30
            &&& crate::text::digits_value(s.subrange(0, 4)) == y
            &&& crate::text::digits_value(s.subrange(5, 7)) == m
            &&& crate::text::digits_value(s.subrange(8, 10)) == d
            &&& crate::text::digits_value(s.subrange(11, 13)) == h
            &&& crate::text::digits_value(s.subrange(14, 16)) == mi
            &&& crate::text::digits_value(s.subrange(17, 19)) == sec
            &&& crate::text::digits_value(s.subrange(20, 29)) == nanos
            &&& s[4] == '-' && s[7] == '-' && s[10] == 'T' && s[13] == ':' && s[16] == ':' && s[19]
                == '.' && s[29] == 'Z'
        }),
{
    lemma_field(y, 4);
    lemma_field(m, 2);
    lemma_field(d, 2);
    lemma_field(h, 2);
    lemma_field(mi, 2);
    lemma_field(sec, 2);
    lemma_field(nanos, 9);
    lemma_places(
        crate::text::dec_padded(y, 4),
        crate::text::dec_padded(m, 2),
        crate::text::dec_padded(d, 2),
        crate::text::dec_padded(h, 2),
        crate::text::dec_padded(mi, 2),
        crate::text::dec_padded(sec, 2),
        crate::text::dec_padded(nanos, 9),
    );
}

proof fn lemma_places(
    y: Seq<char>,
    m: Seq<char>,
    d: Seq<char>,
    h: Seq<char>,
    mi: Seq<char>,
    sec: Seq<char>,
    nanos: Seq<char>,
)
    requires
        y.len() == 4,
        m.len() == 2,
        d.len() == 2,
        h.len() == 2,
        mi.len() == 2,
        sec.len() == 2,
        nanos.len() == 9,
    ensures
        ({
            let date = y + seq!['-'] + m + seq!['-'] + d;
            let time = h + seq![':'] + mi + seq![':'] + sec;
            let s = date + seq!['T'] + time + seq!['.'] + nanos + seq!['Z'];
            &&& s.len() == 30
            &&& s.subrange(0, 4) == y && s.subrange(5, 7) == m && s.subrange(8, 10) == d
            &&& s.subrange(11, 13) == h && s.subrange(14, 16) == mi && s.subrange(17, 19) == sec
            &&& s.subrange(20, 29) == nanos
            &&& s[4] == '-' && s[7] == '-' && s[10] == 'T' && s[13] == ':' && s[16] == ':' && s[19]
                == '.' && s[29] == 'Z'
        }),
{
    let date = y + seq!['-'] + m + seq!['-'] + d;
    let time = h + seq![':'] + mi + seq![':'] + sec;
    let s = date + seq!['T'] + time + seq!['.'] + nanos + seq!['Z'];
    assert(date.len() == 10 && time.len() == 8);
    assert(s.subrange(0, 10) =~= date);
    assert(s.subrange(11, 19) =~= time);
    assert(s.subrange(20, 29) =~= nanos);
    assert(date.subrange(0, 4) =~= y);
    assert(date.subrange(5, 7) =~= m);
    assert(date.subrange(8, 10) =~= d);
    assert(time.subrange(0, 2) =~= h);
    assert(time.subrange(3, 5) =~= mi);
    assert(time.subrange(6, 8) =~= sec);
    assert(s.subrange(0, 4) =~= date.subrange(0, 4));
    assert(s.subrange(5, 7) =~= date.subrange(5, 7));
    assert(s.subrange(8, 10) =~= date.subrange(8, 10));
    assert(s.subrange(11, 13) =~= time.subrange(0, 2));
    assert(s.subrange(14, 16) =~= time.subrange(3, 5));
    assert(s.subrange(17, 19) =~= time.subrange(6, 8));
    assert(s[4] == date[4] && s[7] == date[7] && s[13] == time[2] && s[16] == time[5]);
}

proof fn lemma_field(n: nat, width: nat)
    requires
        width == 2 && n < 100 || width == 4 && n < 10000 || width == 9 && n < 1_000_000_000,
    ensures
        crate::text::dec_padded(n, width).len() == width,
        crate::text::digits_value(crate::text::dec_padded(n, width)) == n,
{
    reveal_with_fuel(crate::text::power_of_ten, 10);
    crate::text::lemma_dec_len(n, width);
    crate::text::law_padding_keeps_the_number(n, width);
}

/// A log line begins with the moment, the stream, and whether the output ends a line; the output
/// follows, and nothing else but the line feed that it lacks.
pub proof fn law_log_line_says_when_and_where(stamp: Seq<char>, stream: Seq<char>, data: Seq<u8>)
    ensures
        ({
            let line = log_line(stamp, stream, data);
            let whole = data.len() > 0 && data.last() == 10;
            let head = vstd::utf8::encode_utf8(
                stamp + seq![' '] + stream + if whole {
                    seq![' ', 'F', ' ']
                } else {
                    seq![' ', 'P', ' ']
                },
            );
            &&& head.is_prefix_of(line)
            &&& line.len() == head.len() + data.len() + if whole {
                0int
            } else {
                1int
            }
            &&& data == line.subrange(head.len() as int, (head.len() + data.len()) as int)
            &&& line.last() == 10
        }),
{
    let line = log_line(stamp, stream, data);
    let whole = data.len() > 0 && data.last() == 10;
    let head = vstd::utf8::encode_utf8(
        stamp + seq![' '] + stream + if whole {
            seq![' ', 'F', ' ']
        } else {
            seq![' ', 'P', ' ']
        },
    );
    assert(line.subrange(0, head.len() as int) =~= head);
    assert(line.subrange(head.len() as int, (head.len() + data.len()) as int) =~= data);
}

/// Lines are logged one by one and in order, all with the same stamp.
pub proof fn law_lines_are_logged_one_by_one(
    stamp: Seq<char>,
    stream: Seq<char>,
    lines: Seq<Seq<u8>>,
    i: int,
)
    ensures
        log_lines(stamp, stream, lines).len() == lines.len(),
        0 <= i < lines.len() && ends_line(lines[i]) ==> lines[i].is_suffix_of(
            log_lines(stamp, stream, lines)[i],
        ),
{
    if 0 <= i < lines.len() {
        law_log_line_is_closed(stamp, stream, lines[i]);
    }
}

/// Output is cut where a line feed stands: what has none is held back whole, and what comes after the
/// last is held back.
pub proof fn law_output_is_cut_at_line_feeds(line: Seq<u8>, rest: Seq<u8>)
    requires
        !line.contains(10),
        !rest.contains(10),
    ensures
        cut(line) == (Seq::<Seq<u8>>::empty(), line),
        cut(line.push(10) + rest) == (seq![line.push(10)], rest),
{
    lemma_cut_without_newline(line);
    assert(line.push(10).drop_last() =~= line);
    assert(cut(line.push(10)).0 =~= seq![line.push(10)]);
    lemma_cut_rest(line.push(10), rest);
}

proof fn lemma_cut_rest(front: Seq<u8>, rest: Seq<u8>)
    requires
        cut(front).1 == Seq::<u8>::empty(),
        !rest.contains(10),
    ensures
        cut(front + rest) == (cut(front).0, rest),
    decreases rest.len(),
{
    if rest.len() == 0 {
        assert(front + rest =~= front);
        assert(rest =~= Seq::empty());
    } else {
        let before = rest.drop_last();
        assert(!before.contains(10)) by {
            if before.contains(10) {
                let i = before.index_of(10);
                assert(rest[i] == 10);
            }
        }
        assert(rest.contains(rest.last()));
        lemma_cut_rest(front, before);
        assert((front + rest).drop_last() =~= front + before);
        assert(before.push(rest.last()) =~= rest);
    }
}

/// No output is lost: the lines that were logged and what is held back are the output, however it came;
/// what is held back when it ends is logged too, with the line feed that it lacks.
pub proof fn law_no_output_is_lost(chunks: Seq<Seq<u8>>, stamp: Seq<char>, stream: Seq<char>)
    ensures
        ({
            let (lines, held) = teed(chunks);
            &&& joined(lines) + held == joined(chunks)
            &&& last_line(stamp, stream, held) is Some <==> held.len() > 0
            &&& last_line(stamp, stream, held) matches Some(line) ==> held.push(10).is_suffix_of(
                line,
            )
        }),
{
    law_chunks_do_not_matter(chunks);
    law_lines_are_the_output(joined(chunks));
    law_log_line_is_closed(stamp, stream, teed(chunks).1);
}

} // verus!
