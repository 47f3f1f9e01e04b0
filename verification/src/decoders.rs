//! Decoders: which decoders a bookmark asks for.
use vstd::prelude::*;

use crate::text::{
    lemma_list_has, list_contains, list_view, lowered, own, str_eq, to_lower, trim, trimmed,
};

verus! {

/// A decoder name as it is compared: without surrounding white space, in small letters.
pub open spec fn decoder_name(s: Seq<char>) -> Seq<char> {
    lowered(trimmed(s))
}

/// The name of a decoder as it is compared.
pub fn normalize_decoder(s: &str) -> (res: String)
    ensures
        res@ == decoder_name(s@),
{
    let t = trim(s);
    to_lower(t.as_str())
}

/// Whether the list names the decoder `kind`.
pub open spec fn names_decoder(decoders: Seq<Seq<char>>, kind: Seq<char>) -> bool {
    exists|i: int| 0 <= i < decoders.len() && decoder_name(#[trigger] decoders[i]) == kind
}

/// Whether the list names the decoder.
pub fn wants_decoder(decoders: &Vec<String>, kind: &str) -> (res: bool)
    ensures
        res == names_decoder(list_view(decoders@), kind@),
{
    let ghost names = list_view(decoders@);
    let mut i: usize = 0;
    while i < decoders.len()
        invariant
            i <= decoders@.len(),
            names == list_view(decoders@),
            forall|j: int| 0 <= j < i ==> decoder_name(#[trigger] names[j]) != kind@,
        decreases decoders@.len() - i,
    {
        let name = normalize_decoder(decoders[i].as_str());
        assert(names[i as int] == decoders@[i as int]@);
        if str_eq(name.as_str(), kind) {
            return true;
        }
        i = i + 1;
    }
    false
}

/// Whether a mode is the given one, up to surrounding white space and ASCII case.
pub fn mode_is(mode: &str, name: &str) -> (res: bool)
    ensures
        res == (decoder_name(mode@) == name@),
{
    let m = normalize_decoder(mode);
    str_eq(m.as_str(), name)
}

/// The decoders that are switched on and off with a channel.
#[derive(Clone, Copy, Debug, PartialEq, Eq, Structural)]
pub struct DecoderState {
    pub aprs: bool,
    pub hf_aprs: bool,
    pub ft8: bool,
    pub ft4: bool,
    pub ft2: bool,
    pub wspr: bool,
    pub lrpt: bool,
}

/// The decoders a bookmark wants on: those its list names, and APRS for a packet bookmark.
pub open spec fn decoder_state_of(mode: Seq<char>, decoders: Seq<Seq<char>>) -> DecoderState {
    DecoderState {
        aprs: decoder_name(mode) == "pkt"@ || names_decoder(decoders, "aprs"@),
        hf_aprs: names_decoder(decoders, "hf-aprs"@),
        ft8: names_decoder(decoders, "ft8"@),
        ft4: names_decoder(decoders, "ft4"@),
        ft2: names_decoder(decoders, "ft2"@),
        wspr: names_decoder(decoders, "wspr"@),
        lrpt: names_decoder(decoders, "lrpt"@),
    }
}

/// The decoders that a bookmark with this mode and decoder list wants on.
pub fn bookmark_decoder_state(mode: &str, decoders: &Vec<String>) -> (res: DecoderState)
    ensures
        res == decoder_state_of(mode@, list_view(decoders@)),
{
    DecoderState {
        aprs: mode_is(mode, "pkt") || wants_decoder(decoders, "aprs"),
        hf_aprs: wants_decoder(decoders, "hf-aprs"),
        ft8: wants_decoder(decoders, "ft8"),
        ft4: wants_decoder(decoders, "ft4"),
        ft2: wants_decoder(decoders, "ft2"),
        wspr: wants_decoder(decoders, "wspr"),
        lrpt: wants_decoder(decoders, "lrpt"),
    }
}

/// Whether a decoder can run on a channel of its own.
pub open spec fn is_channel_decoder(name: Seq<char>) -> bool {
    ||| name == "aprs"@
    ||| name == "ais"@
    ||| name == "ft8"@
    ||| name == "ft4"@
    ||| name == "ft2"@
    ||| name == "wspr"@
    ||| name == "hf-aprs"@
}

fn supports_channel(name: &str) -> (res: bool)
    ensures
        res == is_channel_decoder(name@),
{
    str_eq(name, "aprs") || str_eq(name, "ais") || str_eq(name, "ft8") || str_eq(name, "ft4")
        || str_eq(name, "ft2") || str_eq(name, "wspr") || str_eq(name, "hf-aprs")
}

/// The channel decoders that a list names: each once, in the order of first mention.
pub open spec fn listed_kinds(decoders: Seq<Seq<char>>) -> Seq<Seq<char>>
    decreases decoders.len(),
{
    if decoders.len() == 0 {
        Seq::empty()
    } else {
        let rest = listed_kinds(decoders.drop_last());
        let name = decoder_name(decoders.last());
        if is_channel_decoder(name) && !rest.contains(name) {
            rest.push(name)
        } else {
            rest
        }
    }
}

/// The decoder kinds of a bookmark: what its list names, or else what its mode implies.
pub open spec fn decoder_kinds_of(mode: Seq<char>, decoders: Seq<Seq<char>>) -> Seq<Seq<char>> {
    if listed_kinds(decoders).len() > 0 {
        listed_kinds(decoders)
    } else if decoder_name(mode) == "ais"@ {
        seq!["ais"@]
    } else if decoder_name(mode) == "pkt"@ {
        seq!["aprs"@]
    } else {
        Seq::empty()
    }
}

/// The decoder kinds to run on the channel of a bookmark with this mode and decoder list.
pub fn bookmark_decoder_kinds(mode: &str, decoders: &Vec<String>) -> (res: Vec<String>)
    ensures
        list_view(res@) == decoder_kinds_of(mode@, list_view(decoders@)),
{
    let ghost all = list_view(decoders@);
    let mut out: Vec<String> = Vec::new();
    let mut i: usize = 0;
    assert(list_view(out@) =~= listed_kinds(all.take(0)));
    while i < decoders.len()
        invariant
            i <= decoders@.len(),
            all == list_view(decoders@),
            list_view(out@) == listed_kinds(all.take(i as int)),
        decreases decoders@.len() - i,
    {
        let name = normalize_decoder(decoders[i].as_str());
        let known = list_contains(&out, name.as_str());
        proof {
            assert(all.take(i + 1).drop_last() =~= all.take(i as int));
            assert(all.take(i + 1).last() == decoders@[i as int]@);
            lemma_list_has(out@, name@);
        }
        if supports_channel(name.as_str()) && !known {
            let ghost before = list_view(out@);
            out.push(name);
            assert(list_view(out@) =~= before.push(name@));
        }
        i = i + 1;
    }
    assert(all.take(all.len() as int) =~= all);
    if out.len() > 0 {
        assert(list_view(out@).len() == out@.len());
        return out;
    }
    assert(listed_kinds(all).len() == 0);
    if mode_is(mode, "ais") {
        out.push(own("ais"));
        assert(list_view(out@) =~= seq!["ais"@]);
    } else if mode_is(mode, "pkt") {
        out.push(own("aprs"));
        assert(list_view(out@) =~= seq!["aprs"@]);
    } else {
        assert(list_view(out@) =~= Seq::<Seq<char>>::empty());
    }
    out
}

/// The kinds that a list names are channel decoders, and none occurs twice.
pub proof fn listed_kinds_sound(decoders: Seq<Seq<char>>)
    ensures
        listed_kinds(decoders).no_duplicates(),
        forall|k: Seq<char>|
            #[trigger] listed_kinds(decoders).contains(k) <==> is_channel_decoder(k)
                && names_decoder(decoders, k),
    decreases decoders.len(),
{
    if decoders.len() > 0 {
        let rest = listed_kinds(decoders.drop_last());
        let name = decoder_name(decoders.last());
        let all = listed_kinds(decoders);
        listed_kinds_sound(decoders.drop_last());
        assert forall|k: Seq<char>| #[trigger] all.contains(k) <==> is_channel_decoder(k)
            && names_decoder(decoders, k) by {
            if names_decoder(decoders.drop_last(), k) {
                let i = choose|i: int|
                    0 <= i < decoders.len() - 1 && decoder_name(
                        #[trigger] decoders.drop_last()[i],
                    ) == k;
                assert(decoders[i] == decoders.drop_last()[i]);
                assert(names_decoder(decoders, k));
            }
            if names_decoder(decoders, k) && k != name {
                let i = choose|i: int|
                    0 <= i < decoders.len() && decoder_name(#[trigger] decoders[i]) == k;
                assert(decoders.drop_last()[i] == decoders[i]);
                assert(names_decoder(decoders.drop_last(), k));
            }
            assert(decoders[decoders.len() - 1] == decoders.last());
            if rest.contains(k) {
                let i = choose|i: int| 0 <= i < rest.len() && rest[i] == k;
                assert(all[i] == k);
            }
            if all.contains(k) && !rest.contains(k) {
                let i = choose|i: int| 0 <= i < all.len() && all[i] == k;
                if i < rest.len() {
                    assert(rest[i] == k);
                }
            }
            if is_channel_decoder(name) && !rest.contains(name) {
                assert(all[rest.len() as int] == name);
            }
            assert(rest.contains(k) <==> is_channel_decoder(k) && names_decoder(
                decoders.drop_last(),
                k,
            ));
        }
    }
}

/// Decoders are named without regard to case and to white space around them.
pub proof fn decoders_are_named_without_case(decoders: Seq<Seq<char>>, kind: Seq<char>, i: int)
    ensures
        0 <= i < decoders.len() && lowered(trimmed(decoders[i])) == kind ==> names_decoder(
            decoders,
            kind,
        ),
        names_decoder(decoders, kind) ==> exists|j: int|
            0 <= j < decoders.len() && lowered(trimmed(#[trigger] decoders[j])) == kind,
{
}

/// The decoders that a bookmark switches on are those it names; packet mode brings APRS with it.
pub proof fn bookmarks_switch_their_decoders(mode: Seq<char>, decoders: Seq<Seq<char>>)
    ensures
        ({
            let s = decoder_state_of(mode, decoders);
            &&& s.aprs <==> lowered(trimmed(mode)) == "pkt"@ || names_decoder(decoders, "aprs"@)
            &&& s.hf_aprs <==> names_decoder(decoders, "hf-aprs"@)
            &&& s.ft8 <==> names_decoder(decoders, "ft8"@)
            &&& s.ft4 <==> names_decoder(decoders, "ft4"@)
            &&& s.ft2 <==> names_decoder(decoders, "ft2"@)
            &&& s.wspr <==> names_decoder(decoders, "wspr"@)
            &&& s.lrpt <==> names_decoder(decoders, "lrpt"@)
        }),
{
}

/// Of the decoders that a bookmark names a channel runs those that a channel can run, each once; where
/// it names none of them, the mode alone brings AIS or APRS, or none.
pub proof fn channels_run_the_named_decoders(
    mode: Seq<char>,
    decoders: Seq<Seq<char>>,
    kind: Seq<char>,
)
    ensures
        ({
            let runs = kind == "aprs"@ || kind == "ais"@ || kind == "ft8"@ || kind == "ft4"@ || kind
                == "ft2"@ || kind == "wspr"@ || kind == "hf-aprs"@;
            let kinds = decoder_kinds_of(mode, decoders);
            let named = exists|j: int|
                0 <= j < decoders.len() && is_channel_decoder(
                    lowered(trimmed(#[trigger] decoders[j])),
                );
            &&& is_channel_decoder(kind) <==> runs
            &&& kinds.no_duplicates()
            &&& runs && names_decoder(decoders, kind) ==> kinds.contains(kind)
            &&& named && kinds.contains(kind) ==> runs && names_decoder(decoders, kind)
            &&& !named && lowered(trimmed(mode)) == "ais"@ ==> kinds == seq!["ais"@]
            &&& !named && lowered(trimmed(mode)) == "pkt"@ ==> kinds == seq!["aprs"@]
            &&& !named && lowered(trimmed(mode)) != "ais"@ && lowered(trimmed(mode)) != "pkt"@
                ==> kinds.len() == 0
        }),
{
    listed_kinds_sound(decoders);
    let listed = listed_kinds(decoders);
    if is_channel_decoder(kind) && names_decoder(decoders, kind) {
        assert(listed.contains(kind));
    }
    if exists|j: int|
        0 <= j < decoders.len() && is_channel_decoder(lowered(trimmed(#[trigger] decoders[j]))) {
        let j = choose|j: int|
            0 <= j < decoders.len() && is_channel_decoder(lowered(trimmed(#[trigger] decoders[j])));
        let k = decoder_name(decoders[j]);
        assert(names_decoder(decoders, k));
        assert(listed.contains(k));
    } else if listed.len() > 0 {
        assert(listed.contains(listed[0]));
        assert(names_decoder(decoders, listed[0]));
    }
    reveal_strlit("ais");
    reveal_strlit("pkt");
    assert("ais"@[0] != "pkt"@[0]);
}

/// A decoder that a channel can run is listed behind those named before it, unless it is listed
/// already.
pub proof fn kinds_in_the_order_of_the_names(decoders: Seq<Seq<char>>, name: Seq<char>)
    ensures
        ({
            let kind = lowered(trimmed(name));
            let before = listed_kinds(decoders);
            let after = listed_kinds(decoders.push(name));
            &&& is_channel_decoder(kind) && !before.contains(kind) ==> after == before.push(kind)
            &&& !is_channel_decoder(kind) || before.contains(kind) ==> after == before
        }),
        listed_kinds(Seq::empty()).len() == 0,
{
    assert(decoders.push(name).drop_last() =~= decoders);
}

} // verus!
