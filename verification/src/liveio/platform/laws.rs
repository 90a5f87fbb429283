//! What is read from the memory and the lists of a system.

use vstd::prelude::*;

use crate::text;
use crate::text_laws;

use super::bytes;
use super::mac;
use super::win;
use super::win::{Listed, Walk};

verus! {

/// Bytes behind others count by how many stand before them: the first is worth itself,
/// and what follows it 256 times as much.
pub proof fn bytes_count_by_their_place(a: u8, b: u8)
    ensures
        bytes::little_endian(seq![a, b]) == a + 256 * b,
{
    assert(seq![a, b].drop_first() =~= seq![b]);
    assert(seq![b].drop_first() =~= Seq::empty());
    reveal_with_fuel(bytes::little_endian, 3);
}

/// Eight bytes spell the sum of their values, each 256 times that of the one before.
pub proof fn eight_bytes_spell_a_number(s: Seq<u8>)
    requires
        s.len() == 8,
    ensures
        bytes::little_endian(s) == s[0] + 0x100 * s[1] + 0x1_0000 * s[2] + 0x100_0000 * s[3] + 0x1_0000_0000 * s[4]
            + 0x100_0000_0000 * s[5] + 0x1_0000_0000_0000 * s[6] + 0x100_0000_0000_0000 * s[7],
        bytes::little_endian(s) <= u64::MAX,
{
    let s1 = s.drop_first();
    let s2 = s1.drop_first();
    let s3 = s2.drop_first();
    let s4 = s3.drop_first();
    let s5 = s4.drop_first();
    let s6 = s5.drop_first();
    let s7 = s6.drop_first();
    let s8 = s7.drop_first();
    assert(bytes::little_endian(s8) == 0);
    assert(bytes::little_endian(s7) == s[7]);
    assert(bytes::little_endian(s6) == s[6] + 256 * bytes::little_endian(s7));
    assert(bytes::little_endian(s5) == s[5] + 256 * bytes::little_endian(s6));
    assert(bytes::little_endian(s4) == s[4] + 256 * bytes::little_endian(s5));
    assert(bytes::little_endian(s3) == s[3] + 256 * bytes::little_endian(s4));
    assert(bytes::little_endian(s2) == s[2] + 256 * bytes::little_endian(s3));
    assert(bytes::little_endian(s1) == s[1] + 256 * bytes::little_endian(s2));
}

/// The number in the eight bytes from `at` on.
pub open spec fn number_at(b: Seq<u8>, at: int) -> int {
    b[at] + 0x100 * b[at + 1] + 0x1_0000 * b[at + 2] + 0x100_0000 * b[at + 3] + 0x1_0000_0000 * b[at + 4]
        + 0x100_0000_0000 * b[at + 5] + 0x1_0000_0000_0000 * b[at + 6] + 0x100_0000_0000_0000 * b[at + 7]
}

/// A whole resource record holds the beginning of its process at byte 80 and the bytes
/// written to disk at byte 152; a shorter one holds nothing.
pub proof fn record_holds_its_numbers(buf: Seq<u8>)
    ensures
        buf.len() < 296 ==> mac::record_of(buf) is None,
        buf.len() >= 296 ==> (mac::record_of(buf) matches Some(r) && r.start_abstime == number_at(buf, 80)
            && r.disk_bytes_written == number_at(buf, 152)),
{
    if buf.len() >= 296 {
        eight_bytes_spell_a_number(buf.subrange(80, 88));
        eight_bytes_spell_a_number(buf.subrange(152, 160));
    }
}

/// The argument `zcode-cli` is found wherever it stands whole behind the first four
/// bytes, between zeros or the ends.
pub proof fn marker_is_found_among_arguments(count: Seq<u8>, before: Seq<u8>, after: Seq<u8>)
    requires
        count.len() == 4,
        before.len() > 0 ==> before.last() == 0,
        after.len() > 0 ==> after.first() == 0,
    ensures
        mac::has_marker(
            count + before + seq![122u8, 99u8, 111u8, 100u8, 101u8, 45u8, 99u8, 108u8, 105u8] + after,
        ),
{
    let word = seq![122u8, 99u8, 111u8, 100u8, 101u8, 45u8, 99u8, 108u8, 105u8];
    let buf = count + before + word + after;
    let from = (count.len() + before.len()) as int;
    let to = from + 9;
    assert(buf.subrange(from, to) =~= word);
    if before.len() > 0 {
        assert(buf[from - 1] == before.last());
    }
    if after.len() > 0 {
        assert(buf[to] == after.first());
    }
    assert forall|i: int| from <= i < to implies buf[i] != 0 by {
        assert(buf[i] == word[i - from]);
    }
    assert(mac::whole_string(buf, from, to));
}

/// A process is listed on macOS if its number is above zero and it bears the marker,
/// in the order in which it was told.
pub proof fn marked_processes_are_listed(listed: Seq<(i32, bool)>, pid: i32, marked: bool)
    ensures
        mac::cli_pids(Seq::empty()).len() == 0,
        pid > 0 && marked ==> mac::cli_pids(listed.push((pid, marked))) == mac::cli_pids(listed).push(pid as u32),
        pid <= 0 || !marked ==> mac::cli_pids(listed.push((pid, marked))) == mac::cli_pids(listed),
{
    assert(listed.push((pid, marked)).drop_last() =~= listed);
}

/// Two texts are the same but for their case where they differ in nothing but the case
/// of ASCII letters.
pub proof fn only_letters_have_a_case(a: Seq<char>, b: Seq<char>)
    ensures
        win::same_but_case(a, b) <==> a.len() == b.len() && forall|i: int|
            0 <= i < a.len() ==> {
                ||| #[trigger] a[i] == b[i]
                ||| 'A' <= a[i] <= 'Z' && b[i] as u32 == a[i] as u32 + 32
                ||| 'A' <= b[i] <= 'Z' && a[i] as u32 == b[i] as u32 + 32
            },
{
    if win::same_but_case(a, b) {
        assert forall|i: int| 0 <= i < a.len() implies {
            ||| #[trigger] a[i] == b[i]
            ||| 'A' <= a[i] <= 'Z' && b[i] as u32 == a[i] as u32 + 32
            ||| 'A' <= b[i] <= 'Z' && a[i] as u32 == b[i] as u32 + 32
        } by {
            assert(win::lower(a[i]) == win::lower(b[i]));
        }
    }
}

/// A CLI process is one of `zcode.exe`, in any case, whose command line can be read and
/// names `zcode.cjs` anywhere.
pub proof fn cli_process_names_its_script(exe: Seq<char>, before: Seq<char>, after: Seq<char>)
    requires
        win::same_but_case(exe, "zcode.exe"@),
    ensures
        win::is_cli_process(exe, Some(before + "zcode.cjs"@ + after)),
        !win::is_cli_process(exe, None),
{
    text_laws::found_text_is_a_part(before + "zcode.cjs"@ + after, "zcode.cjs"@);
}

/// No process of another program is one, nor one whose command line does not name the
/// script.
pub proof fn other_processes_are_not_listed(exe: Seq<char>, command: Seq<char>)
    requires
        !win::same_but_case(exe, "zcode.exe"@) || !text::occurs(command, "zcode.cjs"@),
    ensures
        !win::is_cli_process(exe, Some(command)),
{
}

/// CLI processes are listed by their numbers, in the order in which they were told.
pub proof fn cli_processes_are_listed(listed: Seq<Listed>, x: Listed)
    ensures
        win::cli_pids(Seq::empty()).len() == 0,
        x.is_cli() ==> win::cli_pids(listed.push(x)) == win::cli_pids(listed).push(x.pid),
        !x.is_cli() ==> win::cli_pids(listed.push(x)) == win::cli_pids(listed),
{
    assert(listed.push(x).drop_last() =~= listed);
}

/// The way to a command line leads from the basic information, where the pointer at
/// byte 8 is followed and 32 bytes gone on, to a pointer that is followed and 112 bytes
/// gone on. A pointer to nothing ends it, and so does too short an answer.
pub proof fn way_follows_the_pointers(got: Seq<u8>, at: u64)
    ensures
        got.len() < 48 ==> Walk::Info.leads_to(got) is None,
        got.len() >= 48 && number_at(got, 8) == 0 ==> Walk::Info.leads_to(got) is None,
        got.len() >= 48 && 0 < number_at(got, 8) <= u64::MAX - 0x20 ==> Walk::Info.leads_to(got) == Some(
            Walk::Pointer { at: (number_at(got, 8) + 0x20) as u64 },
        ),
        got.len() < 8 ==> (Walk::Pointer { at }).leads_to(got) is None,
        got.len() >= 8 && number_at(got, 0) == 0 ==> (Walk::Pointer { at }).leads_to(got) is None,
        got.len() >= 8 && 0 < number_at(got, 0) <= u64::MAX - 0x70 ==> (Walk::Pointer { at }).leads_to(got) == Some(
            Walk::Description { at: (number_at(got, 0) + 0x70) as u64 },
        ),
{
    if got.len() >= 8 {
        eight_bytes_spell_a_number(got.subrange(0, 8));
    }
    if got.len() >= 48 {
        eight_bytes_spell_a_number(got.subrange(8, 16));
    }
}

/// The description of a command line holds its length in its first two bytes and where
/// it is from byte 8 on.
pub proof fn description_holds_place_and_length(got: Seq<u8>, at: u64)
    ensures
        got.len() < 16 ==> (Walk::Description { at }).leads_to(got) is None,
        got.len() >= 16 ==> {
            let len = got[0] + 256 * got[1];
            &&& len == 0 || number_at(got, 8) == 0 ==> (Walk::Description { at }).leads_to(got) is None
            &&& len > 0 && number_at(got, 8) > 0 ==> (Walk::Description { at }).leads_to(got) == Some(
                Walk::Line { at: number_at(got, 8) as u64, len: len as usize },
            )
        },
{
    if got.len() >= 16 {
        bytes_count_by_their_place(got[0], got[1]);
        assert(got.subrange(0, 2) =~= seq![got[0], got[1]]);
        eight_bytes_spell_a_number(got.subrange(8, 16));
    }
}

/// Two bytes make one unit of 16 bits, the lower one first.
pub proof fn two_bytes_make_a_unit(b: Seq<u8>, i: int)
    requires
        0 <= i < b.len() as int / 2,
    ensures
        win::units_of(b).len() == b.len() as int / 2,
        win::units_of(b)[i] == b[2 * i] + 256 * b[2 * i + 1],
{
    bytes_count_by_their_place(b[2 * i], b[2 * i + 1]);
    assert(b.subrange(2 * i, 2 * i + 2) =~= seq![b[2 * i], b[2 * i + 1]]);
}

/// Where the argument is found, it stands so.
pub proof fn found_marker_stands_whole(buf: Seq<u8>) -> (r: (Seq<u8>, Seq<u8>))
    requires
        mac::has_marker(buf),
    ensures
        buf.len() >= 4,
        buf == buf.take(4) + r.0 + seq![122u8, 99u8, 111u8, 100u8, 101u8, 45u8, 99u8, 108u8, 105u8] + r.1,
        r.0.len() > 0 ==> r.0.last() == 0,
        r.1.len() > 0 ==> r.1.first() == 0,
{
    let word = seq![122u8, 99u8, 111u8, 100u8, 101u8, 45u8, 99u8, 108u8, 105u8];
    let (from, to) = choose|from: int, to: int| #[trigger]
        mac::whole_string(buf, from, to) && buf.subrange(from, to) == mac::marker();
    let (before, after) = (buf.subrange(4, from), buf.skip(to));
    assert(mac::marker() =~= word);
    assert(buf.subrange(from, to).len() == 9);
    assert forall|i: int| from <= i < to implies buf[i] == word[i - from] by {
        assert(buf.subrange(from, to)[i - from] == word[i - from]);
    }
    assert(buf =~= buf.take(4) + before + word + after);
    (before, after)
}

/// A pointer that leads beyond the last address leads nowhere.
pub proof fn way_ends_at_the_last_address(got: Seq<u8>, at: u64)
    ensures
        got.len() >= 48 && number_at(got, 8) > u64::MAX - 0x20 ==> Walk::Info.leads_to(got) is None,
        got.len() >= 8 && number_at(got, 0) > u64::MAX - 0x70 ==> (Walk::Pointer { at }).leads_to(got) is None,
{
    if got.len() >= 8 {
        eight_bytes_spell_a_number(got.subrange(0, 8));
    }
    if got.len() >= 48 {
        eight_bytes_spell_a_number(got.subrange(8, 16));
    }
}

/// The way ends with the command line.
pub proof fn way_ends_with_the_line(got: Seq<u8>, at: u64, len: usize)
    ensures
        (Walk::Line { at, len }).leads_to(got) is None,
{
}

} // verus!
