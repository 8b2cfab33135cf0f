//! The scheme table for the supported processor families, and the resolver
//! that maps a user-supplied processor part number to its checksum scheme by
//! substring containment, first match in table order winning.

use vstd::prelude::*;

verus! {

/// The boot-ROM checksum contract of one processor family.
///
/// `words_count == None` means the family defines no checksum scheme, so
/// checksum validation is unsupported for it. Whenever `words_count` is
/// `Some(n)`, the checksum region is the first `n` 32-bit little-endian words
/// of the image; `resulting_word_position` is the word slot that holds the
/// checksum value. For some families that slot lies just past the summed
/// region (`resulting_word_position == n`), in which case no word is excluded
/// from the sum.
#[derive(Clone, Copy, Debug)]
pub struct ProcessorChecksumInfo {
    /// Identifier of the processor family, matched as a substring of the
    /// user-supplied part number.
    pub cpu_family: &'static str,
    /// Number of consecutive 32-bit little-endian words, starting at image
    /// offset 0, that participate in the checksum; `None` if the family has
    /// no checksum scheme.
    pub words_count: Option<usize>,
    /// Zero-based word index that holds (or will hold) the checksum value.
    pub resulting_word_position: usize,
}

/// The mathematical image of a `ProcessorChecksumInfo`: the family identifier
/// as a character sequence and the two scheme numbers as unbounded integers.
#[verifier::ext_equal]
pub ghost struct SchemeView {
    pub cpu_family: Seq<char>,
    pub words_count: Option<int>,
    pub resulting_word_position: int,
}

impl View for ProcessorChecksumInfo {
    type V = SchemeView;

    open spec fn view(&self) -> SchemeView {
        SchemeView {
            cpu_family: self.cpu_family@,
            words_count: match self.words_count {
                Some(n) => Some(n as int),
                None => None,
            },
            resulting_word_position: self.resulting_word_position as int,
        }
    }
}

/// `needle` occurs in `haystack` starting at character position `i`.
pub open spec fn substring_at(haystack: Seq<char>, needle: Seq<char>, i: int) -> bool {
    &&& 0 <= i
    &&& i + needle.len() <= haystack.len()
    &&& haystack.subrange(i, i + needle.len()) == needle
}

/// `needle` occurs somewhere in `haystack`.
pub open spec fn has_substring(haystack: Seq<char>, needle: Seq<char>) -> bool {
    exists|i: int| substring_at(haystack, needle, i)
}

/// Compares `needle` character by character against `haystack` at `start`.
fn matches_at(haystack: &str, needle: &str, start: usize) -> (r: bool)
    requires
        start + needle@.len() <= haystack@.len(),
    ensures
        r == substring_at(haystack@, needle@, start as int),
{
    let haystack_len = haystack.unicode_len();
    let needle_len = needle.unicode_len();
    let mut j: usize = 0;
    while j < needle_len
        invariant
            haystack_len == haystack@.len(),
            needle_len == needle@.len(),
            j <= needle_len,
            start + needle_len <= haystack_len,
            forall|m: int| 0 <= m < j ==> haystack@[start + m] == needle@[m],
        decreases needle_len - j,
    {
        if haystack.get_char(start + j) != needle.get_char(j) {
            proof {
                assert(haystack@.subrange(start as int, start + needle@.len())[j as int]
                    == haystack@[start + j]);
            }
            return false;
        }
        j += 1;
    }
    proof {
        assert(haystack@.subrange(start as int, start + needle@.len()) =~= needle@);
    }
    true
}

/// Whether `needle` occurs in `haystack`, comparing by characters.
pub fn str_contains(haystack: &str, needle: &str) -> (r: bool)
    ensures
        r == has_substring(haystack@, needle@),
{
    let haystack_len = haystack.unicode_len();
    let needle_len = needle.unicode_len();
    if needle_len > haystack_len {
        proof {
            assert(forall|i: int| !substring_at(haystack@, needle@, i));
        }
        return false;
    }
    if needle_len == 0 {
        proof {
            assert(haystack@.subrange(0, 0) =~= needle@);
            assert(substring_at(haystack@, needle@, 0));
        }
        return true;
    }
    let last = haystack_len - needle_len;
    let mut i: usize = 0;
    while i <= last
        invariant
            haystack_len == haystack@.len(),
            needle_len == needle@.len(),
            1 <= needle_len,
            last == haystack_len - needle_len,
            i <= last + 1,
            forall|k: int| 0 <= k < i ==> !substring_at(haystack@, needle@, k),
        decreases last + 1 - i,
    {
        if matches_at(haystack, needle, i) {
            return true;
        }
        i += 1;
    }
    proof {
        assert forall|k: int| !substring_at(haystack@, needle@, k) by {
            if 0 <= k < i {
                assert(!substring_at(haystack@, needle@, k));
            }
        }
    }
    false
}

/// The configured schemes, in resolution order. The LPC3 and LPC29 families
/// define no checksum scheme. For the LPC1, LPC4 and LPC5 families the result
/// slot equals the word count, i.e. the checksum word is stored just past the
/// summed region and no word is excluded from the sum.
pub open spec fn spec_table() -> Seq<SchemeView> {
    seq![
        SchemeView { cpu_family: "LPC3"@, words_count: None, resulting_word_position: 0 },
        SchemeView { cpu_family: "LPC29"@, words_count: None, resulting_word_position: 0 },
        SchemeView { cpu_family: "LPC1"@, words_count: Some(7), resulting_word_position: 7 },
        SchemeView { cpu_family: "LPC2"@, words_count: Some(8), resulting_word_position: 5 },
        SchemeView { cpu_family: "LPC4"@, words_count: Some(7), resulting_word_position: 7 },
        SchemeView { cpu_family: "LPC5"@, words_count: Some(7), resulting_word_position: 7 },
    ]
}

/// The scheme table as an executable vector, in resolution order.
pub fn processor_checksum_table() -> (table: Vec<ProcessorChecksumInfo>)
    ensures
        table@.len() == spec_table().len(),
        forall|k: int| 0 <= k < table@.len() ==> #[trigger] table@[k]@ == spec_table()[k],
{
    let mut table: Vec<ProcessorChecksumInfo> = Vec::new();
    table.push(
        ProcessorChecksumInfo { cpu_family: "LPC3", words_count: None, resulting_word_position: 0 },
    );
    table.push(
        ProcessorChecksumInfo { cpu_family: "LPC29", words_count: None, resulting_word_position: 0 },
    );
    table.push(
        ProcessorChecksumInfo {
            cpu_family: "LPC1",
            words_count: Some(7),
            resulting_word_position: 7,
        },
    );
    table.push(
        ProcessorChecksumInfo {
            cpu_family: "LPC2",
            words_count: Some(8),
            resulting_word_position: 5,
        },
    );
    table.push(
        ProcessorChecksumInfo {
            cpu_family: "LPC4",
            words_count: Some(7),
            resulting_word_position: 7,
        },
    );
    table.push(
        ProcessorChecksumInfo {
            cpu_family: "LPC5",
            words_count: Some(7),
            resulting_word_position: 7,
        },
    );
    proof {
        assert(table@[0]@ =~= spec_table()[0]);
        assert(table@[1]@ =~= spec_table()[1]);
        assert(table@[2]@ =~= spec_table()[2]);
        assert(table@[3]@ =~= spec_table()[3]);
        assert(table@[4]@ =~= spec_table()[4]);
        assert(table@[5]@ =~= spec_table()[5]);
    }
    table
}

/// The scheme a part number resolves to: the first table entry whose family
/// identifier occurs in the part number, or `None` if no entry matches.
pub open spec fn spec_resolve(part_number: Seq<char>) -> Option<SchemeView> {
    spec_resolve_from(part_number, 0)
}

/// Resolution restricted to the table entries from index `k` on.
pub open spec fn spec_resolve_from(part_number: Seq<char>, k: int) -> Option<SchemeView>
    decreases spec_table().len() - k,
{
    if k < 0 || k >= spec_table().len() {
        None
    } else if has_substring(part_number, spec_table()[k].cpu_family) {
        Some(spec_table()[k])
    } else {
        spec_resolve_from(part_number, k + 1)
    }
}

/// Finds the checksum scheme for a processor part number: scans the table in
/// definition order and returns the first scheme whose family identifier is
/// contained in the part number, or `None` when none is.
pub fn get_processor_checksum_info_by_name(cpu_part_number: &str) -> (r: Option<
    ProcessorChecksumInfo,
>)
    ensures
        (match r {
            Some(info) => spec_resolve(cpu_part_number@) == Some(info@),
            None => spec_resolve(cpu_part_number@) is None,
        }),
{
    let table = processor_checksum_table();
    let table_len = table.len();
    let mut k: usize = 0;
    while k < table_len
        invariant
            table_len == table@.len(),
            table@.len() == spec_table().len(),
            forall|j: int| 0 <= j < table@.len() ==> #[trigger] table@[j]@ == spec_table()[j],
            k <= table_len,
            spec_resolve(cpu_part_number@) == spec_resolve_from(cpu_part_number@, k as int),
        decreases table_len - k,
    {
        let info = table[k];
        if str_contains(cpu_part_number, info.cpu_family) {
            proof {
                assert(info@ == spec_table()[k as int]);
                assert(spec_resolve_from(cpu_part_number@, k as int) == Some(
                    spec_table()[k as int],
                ));
            }
            return Some(info);
        }
        proof {
            assert(info@ == spec_table()[k as int]);
            assert(spec_resolve_from(cpu_part_number@, k as int) == spec_resolve_from(
                cpu_part_number@,
                k as int + 1,
            ));
        }
        k += 1;
    }
    None
}

/// Resolution from table index `k` on succeeds exactly when one of the
/// remaining entries' family identifiers is contained in the part number.
proof fn lemma_resolve_from_some_iff_match(part_number: Seq<char>, k: int)
    requires
        0 <= k <= spec_table().len(),
    ensures
        spec_resolve_from(part_number, k) is Some <==> exists|j: int|
            k <= j < spec_table().len() && has_substring(
                part_number,
                #[trigger] spec_table()[j].cpu_family,
            ),
    decreases spec_table().len() - k,
{
    if k < spec_table().len() {
        lemma_resolve_from_some_iff_match(part_number, k + 1);
        if has_substring(part_number, spec_table()[k].cpu_family) {
            assert(k <= k < spec_table().len());
        }
    }
}

/// Resolution succeeds exactly when some registered family identifier is
/// contained in the part number; an identifier containing none resolves to
/// nothing.
pub proof fn lemma_resolve_some_iff_match(part_number: Seq<char>)
    ensures
        spec_resolve(part_number) is Some <==> exists|j: int|
            0 <= j < spec_table().len() && has_substring(
                part_number,
                #[trigger] spec_table()[j].cpu_family,
            ),
{
    lemma_resolve_from_some_iff_match(part_number, 0);
}

/// The fixed part number that resolution falls back to when the supplied one
/// matches no scheme. It contains the LPC1 family identifier and none of the
/// identifiers before it in the table, so it always resolves, to the LPC1
/// scheme.
pub proof fn lemma_fallback_resolves()
    ensures
        spec_resolve("LPC1000"@) == Some(spec_table()[2]),
{
    reveal_strlit("LPC1000");
    reveal_strlit("LPC3");
    reveal_strlit("LPC29");
    reveal_strlit("LPC1");
    let p = "LPC1000"@;
    assert forall|i: int| !substring_at(p, "LPC3"@, i) by {
        if substring_at(p, "LPC3"@, i) {
            assert(p.subrange(i, i + 4)[0] == p[i]);
            assert(p.subrange(i, i + 4)[3] == p[i + 3]);
            assert(false);
        }
    }
    assert forall|i: int| !substring_at(p, "LPC29"@, i) by {
        if substring_at(p, "LPC29"@, i) {
            assert(p.subrange(i, i + 5)[0] == p[i]);
            assert(p.subrange(i, i + 5)[3] == p[i + 3]);
            assert(false);
        }
    }
    assert(p.subrange(0, 4) =~= "LPC1"@);
    assert(substring_at(p, "LPC1"@, 0));
    assert(spec_resolve_from(p, 0) == spec_resolve_from(p, 1));
    assert(spec_resolve_from(p, 1) == spec_resolve_from(p, 2));
    assert(spec_resolve_from(p, 2) == Some(spec_table()[2]));
}

/// Resolution as the tool applies it: try the supplied part number first and
/// fall back to the fixed default part number when nothing matches. The
/// returned flag reports that the fallback was taken; a scheme always comes
/// back either way.
pub fn resolve_with_fallback(cpu_part_number: &str) -> (r: (ProcessorChecksumInfo, bool))
    ensures
        (match spec_resolve(cpu_part_number@) {
            Some(v) => r.0@ == v && !r.1,
            None => Some(r.0@) == spec_resolve("LPC1000"@) && r.1,
        }),
{
    match get_processor_checksum_info_by_name(cpu_part_number) {
        Some(info) => (info, false),
        None => {
            proof {
                lemma_fallback_resolves();
            }
            match get_processor_checksum_info_by_name("LPC1000") {
                Some(info) => (info, true),
                None => {
                    // Unreachable: the fallback part number always resolves.
                    proof {
                        assert(false);
                    }
                    (
                        ProcessorChecksumInfo {
                            cpu_family: "LPC1",
                            words_count: None,
                            resulting_word_position: 0,
                        },
                        true,
                    )
                },
            }
        },
    }
}

} // verus!
