//! The port map: a list of service designations.

use crate::designation;
use crate::service::{Service, ServiceView};
use crate::text;
use vstd::prelude::*;

verus! {

/// An entry of the port map that designates no service, and why.
#[derive(Debug)]
pub struct RejectedService {
    pub string: String,
    pub errors: Vec<String>,
}

/// What a [`RejectedService`] says.
#[verifier::ext_equal]
pub struct RejectedView {
    pub string: Seq<char>,
    pub errors: Seq<Seq<char>>,
}

impl View for RejectedService {
    type V = RejectedView;

    open spec fn view(&self) -> RejectedView {
        RejectedView {
            string: self.string@,
            errors: self.errors@.map_values(|e: String| e@),
        }
    }
}

/// What each of `services` says.
pub open spec fn service_views(services: Seq<Service>) -> Seq<ServiceView> {
    services.map_values(|s: Service| s@)
}

/// What each of `rejected` says.
pub open spec fn rejected_views(rejected: Seq<RejectedService>) -> Seq<RejectedView> {
    rejected.map_values(|r: RejectedService| r@)
}

/// A character that ends an entry of the port map, outside braces.
pub open spec fn is_delimiter(c: char) -> bool {
    c == ',' || c == ' ' || c == '\n'
}

/// Whether what follows `s` stands in braces: the last brace of `s` opens.
pub open spec fn in_braces(s: Seq<char>) -> bool
    decreases s.len(),
{
    if s.len() == 0 {
        false
    } else if s.last() == '{' {
        true
    } else if s.last() == '}' {
        false
    } else {
        in_braces(s.drop_last())
    }
}

/// The stretches of `s` between the delimiters that stand outside braces.
pub open spec fn segments(s: Seq<char>) -> Seq<Seq<char>>
    decreases s.len(),
{
    if s.len() == 0 {
        seq![s]
    } else if is_delimiter(s.last()) && !in_braces(s.drop_last()) {
        segments(s.drop_last()).push(Seq::empty())
    } else {
        let parts = segments(s.drop_last());
        parts.drop_last().push(parts.last().push(s.last()))
    }
}

/// Each of `parts` that is not blank, without the white space round it.
pub open spec fn entries_of(parts: Seq<Seq<char>>) -> Seq<Seq<char>>
    decreases parts.len(),
{
    if parts.len() == 0 {
        Seq::empty()
    } else {
        let before = entries_of(parts.drop_last());
        let entry = text::trim(parts.last());
        if entry.len() == 0 {
            before
        } else {
            before.push(entry)
        }
    }
}

/// The entries of the port map `s`.
pub open spec fn entries(s: Seq<char>) -> Seq<Seq<char>> {
    entries_of(segments(s))
}

/// The services that `list` designates, in order.
pub open spec fn accepted(list: Seq<Seq<char>>) -> Seq<ServiceView>
    decreases list.len(),
{
    if list.len() == 0 {
        Seq::empty()
    } else {
        let before = accepted(list.drop_last());
        match designation::designated(list.last()) {
            Ok(service) => before.push(service),
            Err(_) => before,
        }
    }
}

/// The entries of `list` that designate no service, in order, each with its fault in words.
pub open spec fn refused(list: Seq<Seq<char>>) -> Seq<RejectedView>
    decreases list.len(),
{
    if list.len() == 0 {
        Seq::empty()
    } else {
        let before = refused(list.drop_last());
        match designation::designated(list.last()) {
            Ok(_) => before,
            Err(fault) => before.push(
                RejectedView { string: list.last(), errors: seq![fault.message()] },
            ),
        }
    }
}

/// Puts the service that `segment` designates behind `services`, or the entry behind `rejected`;
/// a blank segment goes nowhere.
fn sort_segment(segment: &str, services: &mut Vec<Service>, rejected: &mut Vec<RejectedService>)
    ensures
        ({
            let entry = text::trim(segment@);
            match designation::designated(entry) {
                Ok(service) if entry.len() > 0 => {
                    &&& service_views(final(services)@) == service_views(old(services)@).push(
                        service,
                    )
                    &&& final(rejected)@ == old(rejected)@
                },
                Err(fault) if entry.len() > 0 => {
                    &&& final(services)@ == old(services)@
                    &&& rejected_views(final(rejected)@) == rejected_views(old(rejected)@).push(
                        RejectedView { string: entry, errors: seq![fault.message()] },
                    )
                },
                _ => {
                    &&& final(services)@ == old(services)@
                    &&& final(rejected)@ == old(rejected)@
                },
            }
        }),
{
    let entry = text::trimmed(segment);
    if entry.is_empty() {
        return ;
    }
    match Service::from_str(entry) {
        Ok(service) => {
            services.push(service);
            assert(service_views(services@) =~= service_views(old(services)@).push(service@));
        },
        Err(e) => {
            let refusal = RejectedService {
                string: entry.to_owned(),
                errors: vec![e.to_string()],
            };
            assert(refusal@.errors =~= seq![e@.message()]);
            rejected.push(refusal);
            assert(rejected_views(rejected@) =~= rejected_views(old(rejected)@).push(refusal@));
        },
    }
}

/// The services that a port map designates, and the entries that designate none.
///
/// Entries are parted by commas, spaces and newlines, except where those stand in braces.
pub fn parse_services(input: &str) -> (r: (Vec<Service>, Vec<RejectedService>))
    ensures
        service_views(r.0@) == accepted(entries(input@)),
        rejected_views(r.1@) == refused(entries(input@)),
{
    let chars = text::chars_of(input);
    let n: usize = chars.len();
    let mut services: Vec<Service> = Vec::new();
    let mut rejected: Vec<RejectedService> = Vec::new();
    let mut braced = false;
    let mut start: usize = 0;
    let mut i: usize = 0;
    let ghost mut done: Seq<Seq<char>> = Seq::empty();
    assert(segments(input@.take(0)) =~= done.push(input@.subrange(0, 0)));
    assert(service_views(services@) =~= accepted(entries_of(done)));
    assert(rejected_views(rejected@) =~= refused(entries_of(done)));
    while i < n
        invariant
            chars@ == input@,
            n == input@.len(),
            start <= i <= n,
            braced == in_braces(input@.take(i as int)),
            segments(input@.take(i as int)) == done.push(input@.subrange(start as int, i as int)),
            service_views(services@) == accepted(entries_of(done)),
            rejected_views(rejected@) == refused(entries_of(done)),
        decreases n - i,
    {
        let c = chars[i];
        let ghost segment = input@.subrange(start as int, i as int);
        assert(input@.take(i + 1).drop_last() == input@.take(i as int));
        assert(done.push(segment).drop_last() == done);
        if (c == ',' || c == ' ' || c == '\n') && !braced {
            sort_segment(input.substring_char(start, i), &mut services, &mut rejected);
            start = i + 1;
            proof {
                assert(input@.subrange(i + 1, i + 1) =~= Seq::<char>::empty());
                lemma_one_more(done, segment);
                done = done.push(segment);
            }
        } else {
            assert(input@.subrange(start as int, i + 1) =~= segment.push(c));
            if c == '{' {
                braced = true;
            } else if c == '}' {
                braced = false;
            }
        }
        i += 1;
    }
    sort_segment(input.substring_char(start, n), &mut services, &mut rejected);
    proof {
        assert(input@.take(n as int) == input@);
        lemma_one_more(done, input@.subrange(start as int, n as int));
    }
    (services, rejected)
}

/// What one more segment adds to the services and to the entries that designate none.
proof fn lemma_one_more(parts: Seq<Seq<char>>, segment: Seq<char>)
    ensures
        ({
            let entry = text::trim(segment);
            let before = entries_of(parts);
            let after = entries_of(parts.push(segment));
            match designation::designated(entry) {
                Ok(service) if entry.len() > 0 => {
                    &&& accepted(after) == accepted(before).push(service)
                    &&& refused(after) == refused(before)
                },
                Err(fault) if entry.len() > 0 => {
                    &&& accepted(after) == accepted(before)
                    &&& refused(after) == refused(before).push(
                        RejectedView { string: entry, errors: seq![fault.message()] },
                    )
                },
                _ => {
                    &&& accepted(after) == accepted(before)
                    &&& refused(after) == refused(before)
                },
            }
        }),
{
    let entry = text::trim(segment);
    assert(parts.push(segment).drop_last() == parts);
    assert(entries_of(parts).push(entry).drop_last() == entries_of(parts));
}

/// Each entry either designates a service or is refused.
pub proof fn every_entry_is_accounted_for(list: Seq<Seq<char>>)
    ensures
        accepted(list).len() + refused(list).len() == list.len(),
    decreases list.len(),
{
    if list.len() > 0 {
        every_entry_is_accounted_for(list.drop_last());
    }
}

/// What a list designates and refuses is what its parts do, one behind the other.
pub proof fn lists_are_sorted_apart(a: Seq<Seq<char>>, b: Seq<Seq<char>>)
    ensures
        accepted(a + b) == accepted(a) + accepted(b),
        refused(a + b) == refused(a) + refused(b),
    decreases b.len(),
{
    if b.len() == 0 {
        assert(a + b =~= a);
        assert(accepted(a) + accepted(b) =~= accepted(a));
        assert(refused(a) + refused(b) =~= refused(a));
    } else {
        lists_are_sorted_apart(a, b.drop_last());
        assert((a + b).drop_last() =~= a + b.drop_last());
        assert((a + b).last() == b.last());
        assert(accepted(a + b) =~= accepted(a) + accepted(b));
        assert(refused(a + b) =~= refused(a) + refused(b));
    }
}

/// No entry is blank, and none has white space round it.
pub proof fn entries_are_trimmed(s: Seq<char>)
    ensures
        forall|i: int|
            0 <= i < entries(s).len() ==> (#[trigger] entries(s)[i]).len() > 0 && text::is_trimmed(
                entries(s)[i],
            ),
{
    lemma_entries_of_trimmed(segments(s));
}

proof fn lemma_entries_of_trimmed(parts: Seq<Seq<char>>)
    ensures
        forall|i: int|
            0 <= i < entries_of(parts).len() ==> (#[trigger] entries_of(parts)[i]).len() > 0
                && text::is_trimmed(entries_of(parts)[i]),
    decreases parts.len(),
{
    if parts.len() > 0 {
        lemma_entries_of_trimmed(parts.drop_last());
        let from = text::trim_takes_white_space_only(parts.last());
        let before = entries_of(parts.drop_last());
        assert forall|i: int| 0 <= i < entries_of(parts).len() implies (#[trigger] entries_of(
            parts,
        )[i]).len() > 0 && text::is_trimmed(entries_of(parts)[i]) by {
            if i < before.len() {
                assert(entries_of(parts)[i] == before[i]);
            }
        }
    }
}

/// There is always a last segment.
proof fn lemma_segments_nonempty(s: Seq<char>)
    ensures
        segments(s).len() > 0,
    decreases s.len(),
{
    if s.len() > 0 {
        lemma_segments_nonempty(s.drop_last());
    }
}

/// Behind a delimiter that stands outside braces, braces and segments begin anew.
proof fn lemma_parted(a: Seq<char>, c: char, b: Seq<char>)
    requires
        is_delimiter(c),
        !in_braces(a),
    ensures
        in_braces(a + seq![c] + b) == in_braces(b),
        segments(a + seq![c] + b) == segments(a) + segments(b),
    decreases b.len(),
{
    let whole = a + seq![c] + b;
    lemma_segments_nonempty(b);
    if b.len() == 0 {
        assert(whole.drop_last() =~= a);
        assert(b =~= Seq::empty());
        assert(segments(a).push(Seq::empty()) =~= segments(a) + segments(b));
    } else {
        lemma_parted(a, c, b.drop_last());
        lemma_segments_nonempty(b.drop_last());
        assert(whole.drop_last() =~= a + seq![c] + b.drop_last());
        assert(whole.last() == b.last());
        let parts = segments(b.drop_last());
        assert((segments(a) + parts).last() == parts.last());
        assert((segments(a) + parts).drop_last() =~= segments(a) + parts.drop_last());
        assert(segments(whole) =~= segments(a) + segments(b));
    }
}

proof fn lemma_entries_of_concat(a: Seq<Seq<char>>, b: Seq<Seq<char>>)
    ensures
        entries_of(a + b) == entries_of(a) + entries_of(b),
    decreases b.len(),
{
    if b.len() == 0 {
        assert(a + b =~= a);
        assert(entries_of(a) + entries_of(b) =~= entries_of(a));
    } else {
        lemma_entries_of_concat(a, b.drop_last());
        assert((a + b).drop_last() =~= a + b.drop_last());
        assert(entries_of(a + b) =~= entries_of(a) + entries_of(b));
    }
}

/// A delimiter that stands outside braces parts a port map in two, which designate and refuse what
/// they do on their own.
pub proof fn delimiters_part_port_maps(a: Seq<char>, c: char, b: Seq<char>)
    requires
        is_delimiter(c),
        !in_braces(a),
    ensures
        entries(a + seq![c] + b) == entries(a) + entries(b),
        accepted(entries(a + seq![c] + b)) == accepted(entries(a)) + accepted(entries(b)),
        refused(entries(a + seq![c] + b)) == refused(entries(a)) + refused(entries(b)),
{
    lemma_parted(a, c, b);
    lemma_entries_of_concat(segments(a), segments(b));
    lists_are_sorted_apart(entries(a), entries(b));
}

/// A text in which delimiters stand in braces only.
pub open spec fn is_unparted(s: Seq<char>) -> bool {
    forall|i: int| 0 <= i < s.len() && is_delimiter(#[trigger] s[i]) ==> in_braces(s.take(i))
}

pub proof fn lemma_one_segment(s: Seq<char>)
    requires
        is_unparted(s),
    ensures
        segments(s) == seq![s],
    decreases s.len(),
{
    if s.len() > 0 {
        let front = s.drop_last();
        assert forall|i: int| 0 <= i < front.len() && is_delimiter(#[trigger] front[i]) implies
            in_braces(front.take(i)) by {
            assert(is_delimiter(s[i]));
            assert(front.take(i) =~= s.take(i));
        }
        lemma_one_segment(front);
        assert(s.take(s.len() - 1) =~= front);
        assert(s[s.len() - 1] == s.last());
        assert(front.push(s.last()) =~= s);
        assert(seq![front].drop_last().push(s) =~= seq![s]);
    }
}

/// Delimiters in braces part nothing: where there are no others, the port map is one entry.
pub proof fn unparted_text_is_one_entry(s: Seq<char>)
    requires
        is_unparted(s),
        text::trim(s).len() > 0,
    ensures
        entries(s) == seq![text::trim(s)],
{
    lemma_one_segment(s);
    assert(seq![s].drop_last() =~= Seq::<Seq<char>>::empty());
    assert(entries_of(Seq::<Seq<char>>::empty()) =~= Seq::<Seq<char>>::empty());
    assert(Seq::<Seq<char>>::empty().push(text::trim(s)) =~= seq![text::trim(s)]);
}

/// The delimiters of a health check part nothing: a designation whose only delimiters stand
/// between its braces is one entry.
pub proof fn health_checks_stay_whole(before: Seq<char>, checks: Seq<char>)
    requires
        forall|i: int| 0 <= i < before.len() ==> !is_delimiter(#[trigger] before[i]),
        !checks.contains('}'),
        text::trim(before + seq!['{'] + checks + seq!['}']).len() > 0,
    ensures
        entries(before + seq!['{'] + checks + seq!['}']) == seq![
            text::trim(before + seq!['{'] + checks + seq!['}']),
        ],
{
    let whole = before + seq!['{'] + checks + seq!['}'];
    assert forall|i: int| 0 <= i < whole.len() && is_delimiter(#[trigger] whole[i]) implies
        in_braces(whole.take(i)) by {
        if i < before.len() {
            assert(whole[i] == before[i]);
        } else {
            lemma_open_brace(before, checks.take(i - before.len() - 1));
            assert(whole.take(i) =~= before + seq!['{'] + checks.take(i - before.len() - 1));
        }
    }
    unparted_text_is_one_entry(whole);
}

/// Behind an opening brace that nothing closes, all stands in braces.
proof fn lemma_open_brace(before: Seq<char>, behind: Seq<char>)
    requires
        !behind.contains('}'),
    ensures
        in_braces(before + seq!['{'] + behind),
    decreases behind.len(),
{
    let whole = before + seq!['{'] + behind;
    if behind.len() > 0 {
        let front = behind.drop_last();
        assert forall|i: int| 0 <= i < front.len() implies front[i] != '}' by {
            assert(behind.contains(behind[i]));
        }
        lemma_open_brace(before, front);
        assert(whole.drop_last() =~= before + seq!['{'] + front);
        assert(whole.last() == behind.last());
        assert(behind.contains(behind[behind.len() - 1]));
    }
}

/// Delimiters stand in braces only in each segment, and braces are open at its end as they are at
/// the end of the whole.
proof fn lemma_segments_are_unparted(s: Seq<char>)
    ensures
        segments(s).len() > 0,
        in_braces(segments(s).last()) == in_braces(s),
        forall|i: int| 0 <= i < segments(s).len() ==> is_unparted(#[trigger] segments(s)[i]),
    decreases s.len(),
{
    if s.len() > 0 {
        let front = s.drop_last();
        lemma_segments_are_unparted(front);
        let parts = segments(front);
        if !(is_delimiter(s.last()) && !in_braces(front)) {
            let before = parts.last();
            let last = before.push(s.last());
            assert(last.drop_last() =~= before);
            assert forall|i: int| 0 <= i < last.len() && is_delimiter(#[trigger] last[i]) implies
                in_braces(last.take(i)) by {
                assert(last.take(i) =~= before.take(i));
                if i < before.len() {
                    assert(parts[parts.len() - 1] == before);
                    assert(is_delimiter(before[i]));
                } else {
                    assert(before.take(i) =~= before);
                }
            }
            assert forall|i: int| 0 <= i < segments(s).len() implies is_unparted(
                #[trigger] segments(s)[i],
            ) by {
                if i < parts.len() - 1 {
                    assert(segments(s)[i] == parts[i]);
                }
            }
        } else {
            assert forall|i: int| 0 <= i < segments(s).len() implies is_unparted(
                #[trigger] segments(s)[i],
            ) by {
                if i < parts.len() {
                    assert(segments(s)[i] == parts[i]);
                }
            }
        }
    }
}

/// White space before a text does not matter to the braces that it leaves open.
proof fn lemma_padding_has_no_braces(padding: Seq<char>, s: Seq<char>)
    requires
        forall|i: int| 0 <= i < padding.len() ==> text::is_white_space(#[trigger] padding[i]),
    ensures
        in_braces(padding + s) == in_braces(s),
    decreases padding.len() + s.len(),
{
    let whole = padding + s;
    if s.len() > 0 {
        lemma_padding_has_no_braces(padding, s.drop_last());
        assert(whole.drop_last() =~= padding + s.drop_last());
    } else if padding.len() > 0 {
        let front = padding.drop_last();
        assert(whole =~= padding);
        assert(padding.last() == padding[padding.len() - 1]);
        lemma_padding_has_no_braces(front, s);
        assert(front + s =~= front);
    }
}

/// Trimming leaves delimiters in braces only.
proof fn lemma_trim_is_unparted(s: Seq<char>)
    requires
        is_unparted(s),
    ensures
        is_unparted(text::trim(s)),
{
    let from = text::trim_takes_white_space_only(s);
    let entry = text::trim(s);
    assert forall|i: int| 0 <= i < entry.len() && is_delimiter(#[trigger] entry[i]) implies
        in_braces(entry.take(i)) by {
        assert(entry[i] == s[from + i]);
        assert forall|j: int| 0 <= j < from implies text::is_white_space(
            #[trigger] s.take(from)[j],
        ) by {
            assert(s.take(from)[j] == s[j]);
        }
        lemma_padding_has_no_braces(s.take(from), entry.take(i));
        assert(s.take(from + i) =~= s.take(from) + entry.take(i));
    }
}

proof fn lemma_entries_of_unparted(parts: Seq<Seq<char>>)
    requires
        forall|i: int| 0 <= i < parts.len() ==> is_unparted(#[trigger] parts[i]),
    ensures
        forall|i: int|
            0 <= i < entries_of(parts).len() ==> is_unparted(#[trigger] entries_of(parts)[i]),
    decreases parts.len(),
{
    if parts.len() > 0 {
        let front = parts.drop_last();
        assert forall|i: int| 0 <= i < front.len() implies is_unparted(#[trigger] front[i]) by {
            assert(front[i] == parts[i]);
        }
        lemma_entries_of_unparted(front);
        assert(parts[parts.len() - 1] == parts.last());
        lemma_trim_is_unparted(parts.last());
        assert forall|i: int| 0 <= i < entries_of(parts).len() implies is_unparted(
            #[trigger] entries_of(parts)[i],
        ) by {
            if i < entries_of(front).len() {
                assert(entries_of(parts)[i] == entries_of(front)[i]);
            }
        }
    }
}

/// In each entry delimiters stand in braces only.
pub proof fn entries_are_unparted(s: Seq<char>)
    ensures
        forall|i: int| 0 <= i < entries(s).len() ==> is_unparted(#[trigger] entries(s)[i]),
{
    lemma_segments_are_unparted(s);
    lemma_entries_of_unparted(segments(s));
}

} // verus!
