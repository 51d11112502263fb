//! SDP answers for the server's ICE-Lite, DTLS-passive endpoint.
//!
//! The offer's media sections are mirrored in order: each m-line gets the
//! server's UDP port, codec attributes are kept, and everything about ICE,
//! DTLS, direction, RTCP multiplexing and connection addresses is replaced
//! by the server's own values.

use vstd::prelude::*;
use vstd::string::*;

use crate::utils::{current_timestamp, dec_digits, decimal_string};

verus! {

/// Position of the first line feed of `s` at or after `from`, or the length.
pub open spec fn newline_from(s: Seq<char>, from: int) -> int
    decreases s.len() - from,
{
    if from >= s.len() || from < 0 {
        s.len() as int
    } else if s[from] == '\n' {
        from
    } else {
        newline_from(s, from + 1)
    }
}

proof fn lemma_newline_from_bounds(s: Seq<char>, from: int)
    requires
        0 <= from,
    ensures
        from <= newline_from(s, from) || newline_from(s, from) == s.len(),
        0 <= newline_from(s, from) <= s.len() || from > s.len(),
    decreases s.len() - from,
{
    if from < s.len() && s[from] != '\n' {
        lemma_newline_from_bounds(s, from + 1);
    }
}

#[via_fn]
proof fn lines_of_decreases(s: Seq<char>) {
    lemma_newline_from_bounds(s, 0);
}

/// `line` without one trailing carriage return.
pub open spec fn strip_cr(line: Seq<char>) -> Seq<char> {
    if line.len() > 0 && line.last() == '\r' {
        line.drop_last()
    } else {
        line
    }
}

/// The lines of `s` as `str::lines` documents them: split at `\n` or
/// `\r\n`, terminators dropped, a final line ending optional (no empty
/// last line for it), and a lone `\r` at the very end kept.
pub open spec fn lines_of(s: Seq<char>) -> Seq<Seq<char>>
    decreases s.len(),
    via lines_of_decreases
{
    let i = newline_from(s, 0);
    if s.len() == 0 {
        seq![]
    } else if i >= s.len() {
        seq![s]
    } else {
        seq![strip_cr(s.take(i))] + lines_of(s.skip(i + 1))
    }
}

/// `s` without leading and trailing whitespace, as `str::trim` gives it.
pub uninterp spec fn trim_of(s: Seq<char>) -> Seq<char>;

/// Relies on `str::lines`: the lines of the text, as its documentation
/// states them.
#[verifier::external_body]
fn split_lines(s: &str) -> (r: Vec<String>)
    ensures
        r@.map_values(|l: String| l@) == lines_of(s@),
{
    s.lines().map(|l| l.to_owned()).collect()
}

/// Relies on `str::trim`: the text without surrounding whitespace.
#[verifier::external_body]
pub(crate) fn trim(s: &str) -> (r: String)
    ensures
        r@ == trim_of(s@),
{
    s.trim().to_owned()
}

/// Relies on `rand::thread_rng` and `Rng::gen_range`: a value drawn from
/// `0..n`, which must not be empty.
#[verifier::external_body]
fn random_below(n: usize) -> (r: usize)
    requires
        n > 0,
    ensures
        r < n,
{
    rand::Rng::gen_range(&mut rand::thread_rng(), 0..n)
}

/// `c` is an ASCII letter or digit.
pub open spec fn is_alphanumeric(c: char) -> bool {
    ('a' <= c && c <= 'z') || ('A' <= c && c <= 'Z') || ('0' <= c && c <= '9')
}

/// A random string of `len` ASCII letters and digits, for ICE ufrags (16)
/// and passwords (22).
pub fn random_ice_string(len: usize) -> (r: String)
    ensures
        r@.len() == len,
        forall|i: int| 0 <= i < len ==> is_alphanumeric(#[trigger] r@[i]),
{
    proof {
        reveal_strlit("abcdefghijklmnopqrstuvwxyzABCDEFGHIJKLMNOPQRSTUVWXYZ0123456789");
    }
    let charset = "abcdefghijklmnopqrstuvwxyzABCDEFGHIJKLMNOPQRSTUVWXYZ0123456789";
    assert(charset@.len() == 62);
    assert forall|k: int| 0 <= k < 62 implies is_alphanumeric(#[trigger] charset@[k]) by {}
    let mut out = String::new();
    let mut i: usize = 0;
    while i < len
        invariant
            charset@.len() == 62,
            forall|k: int| 0 <= k < 62 ==> is_alphanumeric(#[trigger] charset@[k]),
            0 <= i <= len,
            out@.len() == i,
            forall|k: int| 0 <= k < i ==> is_alphanumeric(#[trigger] out@[k]),
        decreases len - i,
    {
        let k = random_below(62);
        let ghost before = out@;
        out.append(charset.substring_char(k, k + 1));
        proof {
            assert(out@[i as int] == charset@[k as int]);
            assert forall|j: int| 0 <= j < i implies out@[j] == before[j] by {}
        }
        i = i + 1;
    }
    out
}

/// `s` begins with `p`.
pub open spec fn has_prefix(s: Seq<char>, p: Seq<char>) -> bool {
    p.len() <= s.len() && s.take(p.len() as int) == p
}

/// Whether `s` begins with `p`.
fn starts_with(s: &str, p: &str) -> (r: bool)
    ensures
        r == has_prefix(s@, p@),
{
    let n = s.unicode_len();
    let m = p.unicode_len();
    if m > n {
        return false;
    }
    let mut i: usize = 0;
    while i < m
        invariant
            n == s@.len(),
            m == p@.len(),
            m <= n,
            0 <= i <= m,
            forall|j: int| 0 <= j < i ==> s@[j] == p@[j],
        decreases m - i,
    {
        if s.get_char(i) != p.get_char(i) {
            return false;
        }
        i = i + 1;
    }
    proof {
        assert(s@.take(m as int) =~= p@);
    }
    true
}

/// Offer lines the answer leaves out, to restate them with the server's values.
pub open spec fn is_skipped(line: Seq<char>) -> bool {
    has_prefix(line, "a=ice-"@) || has_prefix(line, "a=fingerprint"@) || has_prefix(line, "a=setup"@)
        || has_prefix(line, "a=candidate"@) || has_prefix(line, "a=sendrecv"@) || has_prefix(
        line,
        "a=sendonly"@,
    ) || has_prefix(line, "a=recvonly"@) || has_prefix(line, "a=inactive"@) || has_prefix(
        line,
        "a=rtcp-mux"@,
    ) || has_prefix(line, "a=rtcp-rsize"@) || has_prefix(line, "c="@)
}

fn skipped(line: &str) -> (r: bool)
    ensures
        r == is_skipped(line@),
{
    starts_with(line, "a=ice-") || starts_with(line, "a=fingerprint") || starts_with(line, "a=setup")
        || starts_with(line, "a=candidate") || starts_with(line, "a=sendrecv") || starts_with(
        line,
        "a=sendonly",
    ) || starts_with(line, "a=recvonly") || starts_with(line, "a=inactive") || starts_with(
        line,
        "a=rtcp-mux",
    ) || starts_with(line, "a=rtcp-rsize") || starts_with(line, "c=")
}

/// Position of the first space of `s` at or after `from`, or the length.
pub open spec fn space_from(s: Seq<char>, from: int) -> int
    decreases s.len() - from,
{
    if from >= s.len() || from < 0 {
        s.len() as int
    } else if s[from] == ' ' {
        from
    } else {
        space_from(s, from + 1)
    }
}

proof fn lemma_space_from(s: Seq<char>, from: int, i: int)
    requires
        0 <= from <= i <= s.len(),
        forall|j: int| from <= j < i ==> s[j] != ' ',
        i < s.len() ==> s[i] == ' ',
    ensures
        space_from(s, from) == i,
    decreases i - from,
{
    if from < i {
        lemma_space_from(s, from + 1, i);
    }
}

fn find_space(s: &str, from: usize) -> (r: usize)
    requires
        from <= s@.len(),
    ensures
        r == space_from(s@, from as int),
        from <= r <= s@.len(),
{
    let n = s.unicode_len();
    let mut i = from;
    while i < n
        invariant
            n == s@.len(),
            from <= i <= n,
            forall|j: int| from <= j < i ==> s@[j] != ' ',
        ensures
            from <= i <= n,
            forall|j: int| from <= j < i ==> s@[j] != ' ',
            i < n ==> s@[i as int] == ' ',
        decreases n - i,
    {
        if s.get_char(i) == ' ' {
            break;
        }
        i = i + 1;
    }
    proof {
        lemma_space_from(s@, from as int, i as int);
    }
    i
}

/// An m-line with its port replaced, when it has the four fields
/// `media port proto fmts`; otherwise unchanged.
pub open spec fn rewrite_m_line(line: Seq<char>, port: u16) -> Seq<char> {
    let i1 = space_from(line, 0);
    let i2 = space_from(line, i1 + 1);
    let i3 = space_from(line, i2 + 1);
    if i3 < line.len() {
        line.take(i1) + " "@ + dec_digits(port as nat) + line.skip(i2)
    } else {
        line
    }
}

fn m_line_with_port(line: &str, port: u16) -> (r: String)
    ensures
        r@ == rewrite_m_line(line@, port),
{
    let n = line.unicode_len();
    let i1 = find_space(line, 0);
    if i1 >= n {
        return line.to_owned();
    }
    let i2 = find_space(line, i1 + 1);
    if i2 >= n {
        return line.to_owned();
    }
    let i3 = find_space(line, i2 + 1);
    if i3 >= n {
        return line.to_owned();
    }
    let mut out = line.substring_char(0, i1).to_owned();
    out.append(" ");
    out.append(decimal_string(port as u64).as_str());
    out.append(line.substring_char(i2, n));
    out
}

/// One mirrored media section: its rewritten m-line, the codec lines kept,
/// and its `a=mid` value.
pub struct SectionModel {
    pub m_line: Seq<char>,
    pub codec_lines: Seq<Seq<char>>,
    pub mid: Seq<char>,
}

/// Parsing state: finished sections, and the one being read.
pub struct ParseModel {
    pub done: Seq<SectionModel>,
    pub current: Option<SectionModel>,
}

/// One offer line read into the parsing state: an m-line closes the
/// current section and opens a new one; before the first m-line, lines are
/// session header and ignored; skipped lines are dropped; others are kept,
/// and `a=mid:` also sets the section's mid (trimmed).
pub open spec fn parse_step(st: ParseModel, line: Seq<char>, port: u16) -> ParseModel {
    if has_prefix(line, "m="@) {
        ParseModel {
            done: match st.current {
                Some(c) => st.done.push(c),
                None => st.done,
            },
            current: Some(SectionModel { m_line: rewrite_m_line(line, port), codec_lines: seq![], mid: seq![] }),
        }
    } else {
        match st.current {
            None => st,
            Some(c) => if is_skipped(line) {
                st
            } else {
                ParseModel {
                    done: st.done,
                    current: Some(
                        SectionModel {
                            m_line: c.m_line,
                            codec_lines: c.codec_lines.push(line),
                            mid: if has_prefix(line, "a=mid:"@) {
                                trim_of(line.skip(6))
                            } else {
                                c.mid
                            },
                        },
                    ),
                }
            },
        }
    }
}

/// The parsing state after `lines`.
pub open spec fn parse_lines(lines: Seq<Seq<char>>, port: u16) -> ParseModel
    decreases lines.len(),
{
    if lines.len() == 0 {
        ParseModel { done: seq![], current: None }
    } else {
        parse_step(parse_lines(lines.drop_last(), port), lines.last(), port)
    }
}

/// The media sections of an offer's lines.
pub open spec fn offer_sections(lines: Seq<Seq<char>>, port: u16) -> Seq<SectionModel> {
    let st = parse_lines(lines, port);
    match st.current {
        Some(c) => st.done.push(c),
        None => st.done,
    }
}

/// The mids of `secs`, separated by single spaces.
pub open spec fn joined_mids(secs: Seq<SectionModel>) -> Seq<char>
    decreases secs.len(),
{
    if secs.len() == 0 {
        seq![]
    } else if secs.len() == 1 {
        secs[0].mid
    } else {
        joined_mids(secs.drop_last()) + " "@ + secs.last().mid
    }
}

/// Each line followed by CRLF.
pub open spec fn crlf_lines(lines: Seq<Seq<char>>) -> Seq<char>
    decreases lines.len(),
{
    if lines.len() == 0 {
        seq![]
    } else {
        crlf_lines(lines.drop_last()) + lines.last() + "\r\n"@
    }
}

/// The session header of the answer.
pub open spec fn answer_header(ip: Seq<char>, session_id: u64, secs: Seq<SectionModel>) -> Seq<char> {
    "v=0\r\n"@ + "o=- "@ + dec_digits(session_id as nat) + " "@ + dec_digits(session_id as nat)
        + " IN IP4 "@ + ip + "\r\n"@ + "s=-\r\n"@ + "t=0 0\r\n"@ + "a=group:BUNDLE "@ + joined_mids(secs)
        + "\r\n"@ + "a=ice-lite\r\n"@
}

/// One mirrored media section of the answer.
pub open spec fn answer_section(
    sec: SectionModel,
    ip: Seq<char>,
    port: u16,
    fingerprint: Seq<char>,
    ufrag: Seq<char>,
    pwd: Seq<char>,
) -> Seq<char> {
    sec.m_line + "\r\n"@ + "c=IN IP4 "@ + ip + "\r\n"@ + "a=ice-ufrag:"@ + ufrag + "\r\n"@ + "a=ice-pwd:"@
        + pwd + "\r\n"@ + "a=fingerprint:"@ + fingerprint + "\r\n"@ + "a=setup:passive\r\n"@
        + "a=rtcp-mux\r\n"@ + "a=rtcp-rsize\r\n"@ + "a=sendrecv\r\n"@ + crlf_lines(sec.codec_lines)
        + "a=candidate:1 1 udp 2113937151 "@ + ip + " "@ + dec_digits(port as nat)
        + " typ host generation 0\r\n"@ + "a=end-of-candidates\r\n"@
}

/// The media part of the answer: every section in order.
pub open spec fn answer_sections(
    secs: Seq<SectionModel>,
    ip: Seq<char>,
    port: u16,
    fingerprint: Seq<char>,
    ufrag: Seq<char>,
    pwd: Seq<char>,
) -> Seq<char>
    decreases secs.len(),
{
    if secs.len() == 0 {
        seq![]
    } else {
        answer_sections(secs.drop_last(), ip, port, fingerprint, ufrag, pwd) + answer_section(
            secs.last(),
            ip,
            port,
            fingerprint,
            ufrag,
            pwd,
        )
    }
}

/// The whole answer to an offer of `lines`.
pub open spec fn sdp_answer(
    lines: Seq<Seq<char>>,
    fingerprint: Seq<char>,
    port: u16,
    ip: Seq<char>,
    session_id: u64,
    ufrag: Seq<char>,
    pwd: Seq<char>,
) -> Seq<char> {
    let secs = offer_sections(lines, port);
    answer_header(ip, session_id, secs) + answer_sections(secs, ip, port, fingerprint, ufrag, pwd)
}

struct MediaSection {
    m_line: String,
    codec_lines: Vec<String>,
    mid: String,
}

impl MediaSection {
    spec fn model(&self) -> SectionModel {
        SectionModel {
            m_line: self.m_line@,
            codec_lines: self.codec_lines@.map_values(|l: String| l@),
            mid: self.mid@,
        }
    }
}

spec fn models(secs: Seq<MediaSection>) -> Seq<SectionModel> {
    secs.map_values(|s: MediaSection| s.model())
}

spec fn current_model(c: Option<MediaSection>) -> Option<SectionModel> {
    match c {
        Some(s) => Some(s.model()),
        None => None,
    }
}

fn parse_offer(lines: &Vec<String>, port: u16) -> (r: Vec<MediaSection>)
    ensures
        models(r@) == offer_sections(lines@.map_values(|l: String| l@), port),
{
    let ghost ls = lines@.map_values(|l: String| l@);
    let mut sections: Vec<MediaSection> = Vec::new();
    let mut current: Option<MediaSection> = None;
    let mut i: usize = 0;
    proof {
        assert(ls.take(0) =~= Seq::<Seq<char>>::empty());
        assert(models(sections@) =~= Seq::<SectionModel>::empty());
    }
    while i < lines.len()
        invariant
            ls == lines@.map_values(|l: String| l@),
            0 <= i <= lines@.len(),
            parse_lines(ls.take(i as int), port) == (ParseModel {
                done: models(sections@),
                current: current_model(current),
            }),
        decreases lines@.len() - i,
    {
        proof {
            assert(ls.take(i as int + 1).drop_last() =~= ls.take(i as int));
            assert(ls.take(i as int + 1).last() == lines@[i as int]@);
        }
        let line = lines[i].as_str();
        let ghost st = parse_lines(ls.take(i as int), port);
        if starts_with(line, "m=") {
            let ghost before = sections@;
            match current {
                Some(sec) => {
                    sections.push(sec);
                    proof {
                        assert(models(sections@) =~= models(before).push(sec.model()));
                    }
                },
                None => {},
            }
            current = Some(MediaSection { m_line: m_line_with_port(line, port), codec_lines: Vec::new(), mid: String::new() });
            proof {
                assert(current_model(current)->0.codec_lines =~= Seq::<Seq<char>>::empty());
            }
        } else {
            match current {
                None => {},
                Some(mut sec) => {
                    if !skipped(line) {
                        let ghost m0 = sec.model();
                        proof {
                            reveal_strlit("a=mid:");
                        }
                        if starts_with(line, "a=mid:") {
                            let n = line.unicode_len();
                            sec.mid = trim(line.substring_char(6, n));
                            proof {
                                assert(line@.subrange(6, n as int) =~= line@.skip(6));
                            }
                        }
                        sec.codec_lines.push(lines[i].clone());
                        proof {
                            assert(sec.model().codec_lines =~= m0.codec_lines.push(line@));
                        }
                    }
                    current = Some(sec);
                },
            }
        }
        i = i + 1;
    }
    proof {
        assert(ls.take(i as int) =~= ls);
    }
    match current {
        Some(sec) => {
            let ghost before = sections@;
            sections.push(sec);
            proof {
                assert(models(sections@) =~= models(before).push(sec.model()));
            }
        },
        None => {},
    }
    sections
}

#[verifier::rlimit(40)]
fn append_section(
    sdp: &mut String,
    sec: &MediaSection,
    advertise_ip: &str,
    fingerprint: &str,
    ufrag: &str,
    pwd: &str,
    port_text: &String,
    udp_port: u16,
)
    requires
        port_text@ == dec_digits(udp_port as nat),
    ensures
        final(sdp)@ == old(sdp)@ + answer_section(sec.model(), advertise_ip@, udp_port, fingerprint@, ufrag@, pwd@),
{
    let ghost start = sdp@;
    sdp.append(sec.m_line.as_str());
    sdp.append("\r\n");
    sdp.append("c=IN IP4 ");
    sdp.append(advertise_ip);
    sdp.append("\r\n");
    sdp.append("a=ice-ufrag:");
    sdp.append(ufrag);
    sdp.append("\r\n");
    sdp.append("a=ice-pwd:");
    sdp.append(pwd);
    sdp.append("\r\n");
    sdp.append("a=fingerprint:");
    sdp.append(fingerprint);
    sdp.append("\r\n");
    sdp.append("a=setup:passive\r\n");
    sdp.append("a=rtcp-mux\r\n");
    sdp.append("a=rtcp-rsize\r\n");
    sdp.append("a=sendrecv\r\n");
    let ghost fixed = sdp@;
    proof {
        assert(fixed =~= start + (sec.m_line@ + "\r\n"@ + "c=IN IP4 "@ + advertise_ip@ + "\r\n"@ + "a=ice-ufrag:"@
            + ufrag@ + "\r\n"@ + "a=ice-pwd:"@ + pwd@ + "\r\n"@ + "a=fingerprint:"@ + fingerprint@ + "\r\n"@
            + "a=setup:passive\r\n"@ + "a=rtcp-mux\r\n"@ + "a=rtcp-rsize\r\n"@ + "a=sendrecv\r\n"@));
    }
    let ghost cl = sec.codec_lines@.map_values(|l: String| l@);
    let mut j: usize = 0;
    proof {
        assert(cl.take(0) =~= Seq::<Seq<char>>::empty());
        assert(sdp@ =~= fixed + crlf_lines(cl.take(0)));
    }
    while j < sec.codec_lines.len()
        invariant
            cl == sec.codec_lines@.map_values(|l: String| l@),
            0 <= j <= sec.codec_lines@.len(),
            sdp@ == fixed + crlf_lines(cl.take(j as int)),
        decreases sec.codec_lines@.len() - j,
    {
        proof {
            assert(cl.take(j as int + 1).drop_last() =~= cl.take(j as int));
            assert(cl.take(j as int + 1).last() == sec.codec_lines@[j as int]@);
        }
        sdp.append(sec.codec_lines[j].as_str());
        sdp.append("\r\n");
        proof {
            assert(sdp@ =~= fixed + crlf_lines(cl.take(j as int + 1)));
        }
        j = j + 1;
    }
    proof {
        assert(cl.take(j as int) =~= cl);
    }
    let ghost coded = sdp@;
    sdp.append("a=candidate:1 1 udp 2113937151 ");
    sdp.append(advertise_ip);
    sdp.append(" ");
    sdp.append(port_text.as_str());
    sdp.append(" typ host generation 0\r\n");
    sdp.append("a=end-of-candidates\r\n");
    proof {
        assert(sdp@ =~= coded + ("a=candidate:1 1 udp 2113937151 "@ + advertise_ip@ + " "@ + dec_digits(udp_port as nat)
            + " typ host generation 0\r\n"@ + "a=end-of-candidates\r\n"@));
        assert(sdp@ =~= start + answer_section(sec.model(), advertise_ip@, udp_port, fingerprint@, ufrag@, pwd@));
    }
}

/// The SDP answer to `offer`, with every value chosen by the caller: the
/// server's UDP port, advertised IP, DTLS fingerprint, session id and ICE
/// credentials.
pub fn build_sdp_answer_with(
    offer: &str,
    fingerprint: &str,
    udp_port: u16,
    advertise_ip: &str,
    session_id: u64,
    ufrag: &str,
    pwd: &str,
) -> (r: String)
    ensures
        r@ == sdp_answer(lines_of(offer@), fingerprint@, udp_port, advertise_ip@, session_id, ufrag@, pwd@),
{
    let lines = split_lines(offer);
    let sections = parse_offer(&lines, udp_port);
    let ghost secs = models(sections@);
    let sid = decimal_string(session_id);
    let port_text = decimal_string(udp_port as u64);
    let mut sdp = String::new();
    sdp.append("v=0\r\n");
    sdp.append("o=- ");
    sdp.append(sid.as_str());
    sdp.append(" ");
    sdp.append(sid.as_str());
    sdp.append(" IN IP4 ");
    sdp.append(advertise_ip);
    sdp.append("\r\n");
    sdp.append("s=-\r\n");
    sdp.append("t=0 0\r\n");
    sdp.append("a=group:BUNDLE ");
    let ghost bundle = sdp@;
    let mut k: usize = 0;
    proof {
        assert(secs.take(0) =~= Seq::<SectionModel>::empty());
        assert(sdp@ =~= bundle + joined_mids(secs.take(0)));
    }
    while k < sections.len()
        invariant
            secs == models(sections@),
            0 <= k <= sections@.len(),
            sdp@ == bundle + joined_mids(secs.take(k as int)),
        decreases sections@.len() - k,
    {
        proof {
            assert(secs.take(k as int + 1).drop_last() =~= secs.take(k as int));
            assert(secs.take(k as int + 1).last() == secs[k as int]);
            if k == 0 {
                assert(secs.take(0) =~= Seq::<SectionModel>::empty());
            }
        }
        let ghost before = sdp@;
        if k > 0 {
            sdp.append(" ");
        }
        sdp.append(sections[k].mid.as_str());
        proof {
            assert(sections@[k as int].model().mid == secs[k as int].mid);
            if k == 0 {
                assert(sdp@ =~= bundle + joined_mids(secs.take(1)));
            } else {
                assert(sdp@ =~= bundle + (joined_mids(secs.take(k as int)) + " "@ + secs[k as int].mid));
            }
        }
        k = k + 1;
    }
    proof {
        assert(secs.take(k as int) =~= secs);
    }
    sdp.append("\r\n");
    sdp.append("a=ice-lite\r\n");
    let ghost header = sdp@;
    proof {
        assert(header =~= answer_header(advertise_ip@, session_id, secs));
    }
    let mut k: usize = 0;
    while k < sections.len()
        invariant
            secs == models(sections@),
            0 <= k <= sections@.len(),
            port_text@ == dec_digits(udp_port as nat),
            sdp@ == header + answer_sections(secs.take(k as int), advertise_ip@, udp_port, fingerprint@, ufrag@, pwd@),
        decreases sections@.len() - k,
    {
        let ghost start = sdp@;
        append_section(&mut sdp, &sections[k], advertise_ip, fingerprint, ufrag, pwd, &port_text, udp_port);
        proof {
            assert(secs.take(k as int + 1).drop_last() =~= secs.take(k as int));
            assert(secs.take(k as int + 1).last() == secs[k as int]);
            assert(sdp@ =~= start + answer_section(secs[k as int], advertise_ip@, udp_port, fingerprint@, ufrag@, pwd@));
        }
        k = k + 1;
    }
    proof {
        assert(secs.take(k as int) =~= secs);
    }
    sdp
}

/// The SDP answer to `offer` with fresh ICE credentials (16 and 22 random
/// letters and digits) and the current time as session id; returns the
/// answer, the ufrag and the password.
pub fn build_sdp_answer(offer: &str, fingerprint: &str, udp_port: u16, advertise_ip: &str) -> (r: (
    String,
    String,
    String,
))
    ensures
        r.1@.len() == 16,
        r.2@.len() == 22,
        forall|i: int| 0 <= i < 16 ==> is_alphanumeric(#[trigger] r.1@[i]),
        forall|i: int| 0 <= i < 22 ==> is_alphanumeric(#[trigger] r.2@[i]),
        exists|session_id: u64|
            #![trigger sdp_answer(lines_of(offer@), fingerprint@, udp_port, advertise_ip@, session_id, r.1@, r.2@)]
            r.0@ == sdp_answer(lines_of(offer@), fingerprint@, udp_port, advertise_ip@, session_id, r.1@, r.2@),
{
    let session_id = current_timestamp();
    let ufrag = random_ice_string(16);
    let pwd = random_ice_string(22);
    let sdp = build_sdp_answer_with(offer, fingerprint, udp_port, advertise_ip, session_id, ufrag.as_str(), pwd.as_str());
    let r = (sdp, ufrag, pwd);
    proof {
        assert(r.0@ == sdp_answer(lines_of(offer@), fingerprint@, udp_port, advertise_ip@, session_id, r.1@, r.2@));
    }
    r
}

} // verus!
