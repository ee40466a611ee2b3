//! The local backup of what was dictated.
//!
//! Every recording is written to disk before anything that can fail, the local
//! judgement that nobody spoke among them. It is a net against failure and no
//! archive: what nobody asked to keep is gone after a day.

use vstd::prelude::*;

use crate::float::Single;
use crate::text::{
    copy_text, digit_char, directory_of, directory_part, hexadecimal, hexadecimal_text, is_blank,
    is_white, lemma_trim, optional, trim, trimmed,
};

verus! {

/// How long, in milliseconds, a recording is kept that nobody asked to keep.
pub const EXPIRACAO: u64 = 24 * 60 * 60 * 1000;

/// What became of a recording.
#[derive(Debug, Clone, Copy, PartialEq, Eq, Structural)]
pub enum Status {
    /// Recorded, and nothing came back yet.
    Pendente,
    /// Nobody seems to have spoken, so it was never sent.
    SemFala,
    /// A text came back.
    Transcrito,
    /// It came back empty.
    Vazio,
    /// The service could not be asked.
    Falhou,
}

impl Status {
    /// The name under which the status is kept.
    pub open spec fn called(self) -> Seq<char> {
        match self {
            Status::Pendente => "pendente"@,
            Status::SemFala => "sem_fala"@,
            Status::Transcrito => "transcrito"@,
            Status::Vazio => "vazio"@,
            Status::Falhou => "falhou"@,
        }
    }

    /// The name under which the status is kept.
    pub fn name(self) -> (name: &'static str)
        ensures
            name@ == self.called(),
            name@ == match self {
                Status::Pendente => "pendente"@,
                Status::SemFala => "sem_fala"@,
                Status::Transcrito => "transcrito"@,
                Status::Vazio => "vazio"@,
                Status::Falhou => "falhou"@,
            },
    {
        match self {
            Status::Pendente => "pendente",
            Status::SemFala => "sem_fala",
            Status::Transcrito => "transcrito",
            Status::Vazio => "vazio",
            Status::Falhou => "falhou",
        }
    }
}

/// What is known of a recording.
#[derive(Debug)]
pub struct RecordingMeta {
    pub id: String,
    /// Milliseconds since the epoch.
    pub created_at_ms: u64,
    pub duration_seconds: Single,
    pub device_name: String,
    pub status: Status,
    pub text: Option<String>,
    pub error: Option<String>,
    /// Somebody asked to keep it.
    pub saved: bool,
}

/// Where the recordings are kept: beside the file of the preferences.
pub fn dir(settings_path: &str) -> (path: String)
    ensures
        path@ == directory_part(settings_path@) + "recordings"@,
{
    let mut path = directory_of(settings_path);
    path.append("recordings");
    path
}

/// The name of the file of the sound.
pub fn caminho_wav(id: &str) -> (name: String)
    ensures
        name@ == id@ + ".wav"@,
{
    let mut name = copy_text(id);
    name.append(".wav");
    name
}

/// The name of the file of what is known of it.
pub fn caminho_meta(id: &str) -> (name: String)
    ensures
        name@ == id@ + ".json"@,
{
    let mut name = copy_text(id);
    name.append(".json");
    name
}

/// The identifier that a time and a number make.
pub open spec fn id_of(created_at_ms: nat, number: nat) -> Seq<char> {
    hexadecimal(created_at_ms) + "-"@ + hexadecimal(number)
}

/// A new identifier, from the time and a number that grows with each.
pub fn novo_id(agora_ms: u64, sequencia: u32) -> (id: String)
    ensures
        id@ == id_of(agora_ms as nat, sequencia as nat),
{
    let mut id = hexadecimal_text(agora_ms);
    id.append("-");
    id.append(hexadecimal_text(sequencia as u64).as_str());
    id
}

proof fn lemma_hexadecimal_has_no_dash(n: nat)
    ensures
        hexadecimal(n).len() > 0,
        forall|i: int| 0 <= i < hexadecimal(n).len() ==> #[trigger] hexadecimal(n)[i] != '-',
    decreases n,
{
    assert(digit_char(n % 16) != '-');
    if n >= 16 {
        lemma_hexadecimal_has_no_dash(n / 16);
    }
}

proof fn lemma_hexadecimal_differs(a: nat, b: nat)
    requires
        hexadecimal(a) == hexadecimal(b),
    ensures
        a == b,
    decreases a,
{
    let text = hexadecimal(a);
    assert(text.last() == digit_char(a % 16));
    assert(text.last() == digit_char(b % 16));
    assert(a % 16 == b % 16);
    lemma_hexadecimal_has_no_dash(a / 16);
    lemma_hexadecimal_has_no_dash(b / 16);
    if a >= 16 && b >= 16 {
        assert(text.drop_last() =~= hexadecimal(a / 16));
        assert(text.drop_last() =~= hexadecimal(b / 16));
        lemma_hexadecimal_differs(a / 16, b / 16);
    }
}

/// No two recordings have one identifier, unless both the time and the number are
/// the same.
pub proof fn law_identifiers_differ(a: nat, first: nat, b: nat, second: nat)
    requires
        id_of(a, first) == id_of(b, second),
    ensures
        a == b,
        first == second,
{
    reveal_strlit("-");
    let x = hexadecimal(a);
    let y = hexadecimal(b);
    let id = id_of(a, first);
    lemma_hexadecimal_has_no_dash(a);
    lemma_hexadecimal_has_no_dash(b);
    assert(id[x.len() as int] == '-');
    assert(id[y.len() as int] == '-');
    if x.len() < y.len() {
        assert(id[x.len() as int] == y[x.len() as int]);
    } else if y.len() < x.len() {
        assert(id[y.len() as int] == x[y.len() as int]);
    }
    assert(id.take(x.len() as int) =~= x);
    assert(id.take(y.len() as int) =~= y);
    lemma_hexadecimal_differs(a, b);
    let cut = x.len() as int + 1;
    assert(id.skip(cut) =~= hexadecimal(first));
    assert(id.skip(cut) =~= hexadecimal(second));
    lemma_hexadecimal_differs(first, second);
}

/// What is known of a recording that has just been made.
pub fn save(id: String, agora_ms: u64, duration_seconds: Single, device_name: String) -> (meta:
    RecordingMeta)
    ensures
        meta == (RecordingMeta {
            id,
            created_at_ms: agora_ms,
            duration_seconds,
            device_name,
            status: Status::Pendente,
            text: None,
            error: None,
            saved: false,
        }),
{
    RecordingMeta {
        id,
        created_at_ms: agora_ms,
        duration_seconds,
        device_name,
        status: Status::Pendente,
        text: None,
        error: None,
        saved: false,
    }
}

/// Notes what became of a recording.
pub fn set_result(
    meta: RecordingMeta,
    status: Status,
    text: Option<String>,
    error: Option<String>,
) -> (noted: RecordingMeta)
    ensures
        noted == (RecordingMeta { status, text, error, ..meta }),
{
    RecordingMeta { status, text, error, ..meta }
}

/// Keeps a recording for good.
pub fn mark_saved(meta: RecordingMeta) -> (kept: RecordingMeta)
    ensures
        kept == (RecordingMeta { saved: true, ..meta }),
{
    RecordingMeta { saved: true, ..meta }
}

/// What a transcription says of a recording: the status, the text and the error.
pub open spec fn judged(outcome: Result<Seq<char>, Seq<char>>) -> (
    Status,
    Option<Seq<char>>,
    Option<Seq<char>>,
) {
    match outcome {
        Ok(text) => if is_blank(text) {
            (Status::Vazio, None, None)
        } else {
            (Status::Transcrito, Some(trim(text)), None)
        },
        Err(reason) => (Status::Falhou, None, Some(reason)),
    }
}

/// What an answer of the service reads as.
pub open spec fn outcome_view(outcome: Result<String, String>) -> Result<Seq<char>, Seq<char>> {
    match outcome {
        Ok(text) => Ok(text@),
        Err(reason) => Err(reason@),
    }
}

/// What a transcription, asked for again or for the first time, says of a
/// recording.
pub fn retry(outcome: Result<String, String>) -> (result: (Status, Option<String>, Option<String>))
    ensures
        (result.0, optional(result.1), optional(result.2)) == judged(outcome_view(outcome)),
        outcome is Err ==> result.0 == Status::Falhou && result.1 is None && result.2 is Some
            && result.2->0@ == outcome->Err_0@,
        outcome is Ok && is_blank(outcome->Ok_0@) ==> result.0 == Status::Vazio && result.1 is None
            && result.2 is None,
        outcome is Ok && !is_blank(outcome->Ok_0@) ==> result.0 == Status::Transcrito && result.2
            is None && result.1 is Some && result.1->0@ == trim(outcome->Ok_0@),
{
    match outcome {
        Ok(text) => {
            let clean = trimmed(text.as_str());
            if clean.as_str().is_empty() {
                (Status::Vazio, None, None)
            } else {
                (Status::Transcrito, Some(clean), None)
            }
        },
        Err(reason) => (Status::Falhou, None, Some(reason)),
    }
}

// ------------------------------------------------------------------- the list

/// Is it time for a recording to go? It is when more than a day has passed and
/// nobody asked to keep it.
pub open spec fn expired(meta: RecordingMeta, now: u64) -> bool {
    !meta.saved && now - meta.created_at_ms > EXPIRACAO
}

/// The recordings that stay, in order.
pub open spec fn staying(metas: Seq<RecordingMeta>, now: u64) -> Seq<RecordingMeta>
    decreases metas.len(),
{
    if metas.len() == 0 {
        Seq::empty()
    } else if expired(metas.last(), now) {
        staying(metas.drop_last(), now)
    } else {
        staying(metas.drop_last(), now).push(metas.last())
    }
}

/// The recordings that go, in order.
pub open spec fn going(metas: Seq<RecordingMeta>, now: u64) -> Seq<RecordingMeta>
    decreases metas.len(),
{
    if metas.len() == 0 {
        Seq::empty()
    } else if expired(metas.last(), now) {
        going(metas.drop_last(), now).push(metas.last())
    } else {
        going(metas.drop_last(), now)
    }
}

/// Where a recording goes in a list with the newest first: behind those that are
/// newer or as old.
pub open spec fn place_for(list: Seq<RecordingMeta>, meta: RecordingMeta) -> int
    decreases list.len(),
{
    if list.len() == 0 || list.last().created_at_ms >= meta.created_at_ms {
        list.len() as int
    } else {
        place_for(list.drop_last(), meta)
    }
}

/// The list with the newest first, and in the order in which they came where they
/// are as old.
pub open spec fn newest_first(metas: Seq<RecordingMeta>) -> Seq<RecordingMeta>
    decreases metas.len(),
{
    if metas.len() == 0 {
        Seq::empty()
    } else {
        let before = newest_first(metas.drop_last());
        before.insert(place_for(before, metas.last()), metas.last())
    }
}

/// The recordings that there are, and those that are to be deleted.
#[derive(Debug)]
pub struct Listing {
    pub kept: Vec<RecordingMeta>,
    pub expired: Vec<RecordingMeta>,
}

proof fn lemma_place(list: Seq<RecordingMeta>, meta: RecordingMeta)
    ensures
        0 <= place_for(list, meta) <= list.len(),
    decreases list.len(),
{
    if list.len() > 0 && list.last().created_at_ms < meta.created_at_ms {
        lemma_place(list.drop_last(), meta);
    }
}

/// Puts a recording into a list with the newest first.
fn insert_by_age(list: &mut Vec<RecordingMeta>, meta: RecordingMeta)
    ensures
        final(list)@ == old(list)@.insert(place_for(old(list)@, meta), meta),
{
    let ghost before = list@;
    let mut at: usize = list.len();
    proof {
        assert(before.take(at as int) =~= before);
    }
    while at > 0 && list[at - 1].created_at_ms < meta.created_at_ms
        invariant
            at <= list.len(),
            list@ == before,
            place_for(before.take(at as int), meta) == place_for(before, meta),
        decreases at,
    {
        proof {
            assert(before.take(at as int).drop_last() =~= before.take(at - 1));
        }
        at = at - 1;
    }
    list.insert(at, meta);
}

/// All the recordings that are kept, the newest first. Those whose time has come
/// are told apart, to be deleted.
pub fn list(metas: Vec<RecordingMeta>, agora_ms: u64) -> (listing: Listing)
    ensures
        listing.kept@ == newest_first(staying(metas@, agora_ms)),
        listing.expired@ == going(metas@, agora_ms),
        forall|meta: RecordingMeta| #[trigger]
            listing.expired@.contains(meta) <==> metas@.contains(meta) && !meta.saved && agora_ms
                - meta.created_at_ms > 24 * 60 * 60 * 1000,
        forall|meta: RecordingMeta| #[trigger]
            listing.kept@.contains(meta) <==> metas@.contains(meta) && (meta.saved || agora_ms
                - meta.created_at_ms <= 24 * 60 * 60 * 1000),
        listing.kept@.to_multiset().add(listing.expired@.to_multiset()) == metas@.to_multiset(),
        forall|i: int, j: int|
            0 <= i < j < listing.kept@.len() ==> (#[trigger] listing.kept@[i]).created_at_ms >= (
            #[trigger] listing.kept@[j]).created_at_ms,
{
    let ghost all = metas@;
    let mut rest = metas;
    let mut kept: Vec<RecordingMeta> = Vec::new();
    let mut gone: Vec<RecordingMeta> = Vec::new();
    let ghost mut done: int = 0;
    proof {
        assert(all.skip(0) =~= all);
    }
    while rest.len() > 0
        invariant
            0 <= done <= all.len(),
            rest@ == all.skip(done),
            kept@ == newest_first(staying(all.take(done), agora_ms)),
            gone@ == going(all.take(done), agora_ms),
        decreases rest.len(),
    {
        let meta = rest.remove(0);
        proof {
            assert(all.take(done + 1).drop_last() =~= all.take(done));
            assert(all.take(done + 1).last() == meta);
            assert(rest@ =~= all.skip(done + 1));
        }
        let expirou = !meta.saved && agora_ms > meta.created_at_ms && agora_ms - meta.created_at_ms
            > EXPIRACAO;
        if expirou {
            gone.push(meta);
        } else {
            proof {
                let before = staying(all.take(done), agora_ms);
                assert(before.push(meta).drop_last() =~= before);
            }
            insert_by_age(&mut kept, meta);
        }
        proof {
            done = done + 1;
        }
    }
    proof {
        assert(all.take(done) =~= all);
        law_a_day_and_no_more(all, agora_ms);
    }
    Listing { kept, expired: gone }
}

/// Is the list in order, the newest first?
pub open spec fn in_order(list: Seq<RecordingMeta>) -> bool {
    forall|i: int, j: int|
        0 <= i < j < list.len() ==> (#[trigger] list[i]).created_at_ms >= (
        #[trigger] list[j]).created_at_ms
}

proof fn lemma_insert_keeps_order(list: Seq<RecordingMeta>, meta: RecordingMeta)
    requires
        in_order(list),
    ensures
        in_order(list.insert(place_for(list, meta), meta)),
        forall|i: int|
            0 <= i < place_for(list, meta) ==> (#[trigger] list[i]).created_at_ms
                >= meta.created_at_ms,
        forall|i: int|
            place_for(list, meta) <= i < list.len() ==> (#[trigger] list[i]).created_at_ms
                < meta.created_at_ms,
    decreases list.len(),
{
    lemma_place(list, meta);
    let at = place_for(list, meta);
    if list.len() > 0 && list.last().created_at_ms < meta.created_at_ms {
        let front = list.drop_last();
        assert(in_order(front)) by {
            assert forall|i: int, j: int| 0 <= i < j < front.len() implies (
            #[trigger] front[i]).created_at_ms >= (#[trigger] front[j]).created_at_ms by {
                assert(list[i].created_at_ms >= list[j].created_at_ms);
            }
        }
        lemma_insert_keeps_order(front, meta);
        assert forall|i: int| 0 <= i < at implies (#[trigger] list[i]).created_at_ms
            >= meta.created_at_ms by {
            assert(front[i] == list[i]);
        }
        assert forall|i: int| at <= i < list.len() implies (#[trigger] list[i]).created_at_ms
            < meta.created_at_ms by {
            if i < front.len() {
                assert(front[i] == list[i]);
            }
        }
    } else if list.len() > 0 {
        assert forall|i: int| 0 <= i < at implies (#[trigger] list[i]).created_at_ms
            >= meta.created_at_ms by {
            if i < list.len() - 1 {
                assert(list[i].created_at_ms >= list[list.len() - 1].created_at_ms);
            }
        }
    }
    let longer = list.insert(at, meta);
    assert forall|i: int, j: int| 0 <= i < j < longer.len() implies (
    #[trigger] longer[i]).created_at_ms >= (#[trigger] longer[j]).created_at_ms by {
        let a = if i < at {
            i
        } else {
            i - 1
        };
        let b = if j < at {
            j
        } else {
            j - 1
        };
        if i != at && j != at {
            assert(longer[i] == list[a]);
            assert(longer[j] == list[b]);
        } else if i == at {
            assert(longer[j] == list[b]);
        } else {
            assert(longer[i] == list[a]);
        }
    }
}

/// The list is in order, the newest first, and holds the recordings that it was
/// made from, each as often.
pub proof fn law_list_is_newest_first(metas: Seq<RecordingMeta>)
    ensures
        in_order(newest_first(metas)),
        newest_first(metas).to_multiset() == metas.to_multiset(),
    decreases metas.len(),
{
    if metas.len() > 0 {
        let front = metas.drop_last();
        law_list_is_newest_first(front);
        let before = newest_first(front);
        lemma_insert_keeps_order(before, metas.last());
        lemma_place(before, metas.last());
        vstd::seq_lib::to_multiset_insert(before, place_for(before, metas.last()), metas.last());
        assert(metas =~= front.push(metas.last()));
        vstd::seq_lib::to_multiset_build(front, metas.last());
    } else {
        assert(newest_first(metas) =~= metas);
    }
}

/// What somebody asked to keep stays, however old; so does what is no older than
/// a day. Everything else goes, and nothing is both.
pub proof fn law_only_the_unwanted_expire(metas: Seq<RecordingMeta>, now: u64)
    ensures
        forall|i: int|
            0 <= i < staying(metas, now).len() ==> !expired(#[trigger] staying(metas, now)[i], now),
        forall|i: int|
            0 <= i < going(metas, now).len() ==> expired(#[trigger] going(metas, now)[i], now),
        staying(metas, now).len() + going(metas, now).len() == metas.len(),
        forall|meta: RecordingMeta|
            metas.contains(meta) ==> #[trigger] staying(metas, now).contains(meta) || going(
                metas,
                now,
            ).contains(meta),
    decreases metas.len(),
{
    if metas.len() > 0 {
        let front = metas.drop_last();
        law_only_the_unwanted_expire(front, now);
        let stay = staying(metas, now);
        let go = going(metas, now);
        let stay_before = staying(front, now);
        let go_before = going(front, now);
        assert forall|i: int| 0 <= i < stay.len() implies !expired(#[trigger] stay[i], now) by {
            if i < stay_before.len() {
                assert(stay[i] == stay_before[i]);
            }
        }
        assert forall|i: int| 0 <= i < go.len() implies expired(#[trigger] go[i], now) by {
            if i < go_before.len() {
                assert(go[i] == go_before[i]);
            }
        }
        assert forall|meta: RecordingMeta| metas.contains(meta) implies #[trigger] stay.contains(
            meta,
        ) || go.contains(meta) by {
            if front.contains(meta) {
                if stay_before.contains(meta) {
                    let k = choose|k: int| 0 <= k < stay_before.len() && stay_before[k] == meta;
                    assert(stay[k] == meta);
                } else {
                    let k = choose|k: int| 0 <= k < go_before.len() && go_before[k] == meta;
                    assert(go[k] == meta);
                }
            } else {
                let k = choose|k: int| 0 <= k < metas.len() && metas[k] == meta;
                if k < front.len() {
                    assert(front[k] == meta);
                }
                if expired(meta, now) {
                    assert(go[go.len() - 1] == meta);
                } else {
                    assert(stay[stay.len() - 1] == meta);
                }
            }
        }
    }
}

proof fn lemma_told_apart(metas: Seq<RecordingMeta>, now: u64)
    ensures
        staying(metas, now).to_multiset().add(going(metas, now).to_multiset())
            == metas.to_multiset(),
        forall|meta: RecordingMeta| #[trigger]
            going(metas, now).contains(meta) ==> metas.contains(meta),
        forall|meta: RecordingMeta| #[trigger]
            staying(metas, now).contains(meta) ==> metas.contains(meta),
    decreases metas.len(),
{
    let stay = staying(metas, now);
    let go = going(metas, now);
    if metas.len() == 0 {
        assert(stay =~= metas);
        assert(go =~= metas);
        assert(stay.to_multiset().add(go.to_multiset()) =~= metas.to_multiset()) by {
            vstd::seq_lib::to_multiset_len(metas);
            assert(metas.to_multiset() =~= vstd::multiset::Multiset::empty());
        }
    } else {
        let front = metas.drop_last();
        let last = metas.last();
        lemma_told_apart(front, now);
        assert(metas =~= front.push(last));
        vstd::seq_lib::to_multiset_build(front, last);
        let kept = staying(front, now);
        let gone = going(front, now);
        vstd::seq_lib::to_multiset_build(kept, last);
        vstd::seq_lib::to_multiset_build(gone, last);
        assert(stay.to_multiset().add(go.to_multiset()) =~= metas.to_multiset());
        assert forall|meta: RecordingMeta| #[trigger] go.contains(meta) implies metas.contains(
            meta,
        ) by {
            let i = choose|i: int| 0 <= i < go.len() && go[i] == meta;
            if i < gone.len() {
                assert(gone[i] == meta);
                assert(gone.contains(meta));
                assert(front.contains(meta));
                let k = choose|k: int| 0 <= k < front.len() && front[k] == meta;
                assert(metas[k] == meta);
            } else {
                assert(metas[metas.len() - 1] == meta);
            }
        }
        assert forall|meta: RecordingMeta| #[trigger] stay.contains(meta) implies metas.contains(
            meta,
        ) by {
            let i = choose|i: int| 0 <= i < stay.len() && stay[i] == meta;
            if i < kept.len() {
                assert(kept[i] == meta);
                assert(kept.contains(meta));
                assert(front.contains(meta));
                let k = choose|k: int| 0 <= k < front.len() && front[k] == meta;
                assert(metas[k] == meta);
            } else {
                assert(metas[metas.len() - 1] == meta);
            }
        }
    }
}

/// A recording is deleted exactly where nobody asked to keep it and it was made more
/// than 24 hours ago, whatever came of it. Every other one is in the list, the newest
/// first, and none is lost or there twice.
pub proof fn law_a_day_and_no_more(metas: Seq<RecordingMeta>, now: u64)
    ensures
        forall|meta: RecordingMeta| #[trigger]
            going(metas, now).contains(meta) <==> metas.contains(meta) && !meta.saved && now
                - meta.created_at_ms > 24 * 60 * 60 * 1000,
        forall|meta: RecordingMeta| #[trigger]
            newest_first(staying(metas, now)).contains(meta) <==> metas.contains(meta) && (
            meta.saved || now - meta.created_at_ms <= 24 * 60 * 60 * 1000),
        newest_first(staying(metas, now)).to_multiset().add(going(metas, now).to_multiset())
            == metas.to_multiset(),
        forall|i: int, j: int|
            0 <= i < j < newest_first(staying(metas, now)).len() ==> (#[trigger] newest_first(
                staying(metas, now),
            )[i]).created_at_ms >= (#[trigger] newest_first(staying(metas, now))[j]).created_at_ms,
{
    let stay = staying(metas, now);
    let go = going(metas, now);
    let listed = newest_first(stay);
    law_only_the_unwanted_expire(metas, now);
    lemma_told_apart(metas, now);
    law_list_is_newest_first(stay);
    broadcast use vstd::seq_lib::group_to_multiset_ensures;

    assert forall|meta: RecordingMeta| #[trigger] go.contains(meta) <==> metas.contains(meta)
        && !meta.saved && now - meta.created_at_ms > 24 * 60 * 60 * 1000 by {
        if go.contains(meta) {
            let i = choose|i: int| 0 <= i < go.len() && go[i] == meta;
            assert(expired(go[i], now));
        }
        if metas.contains(meta) && stay.contains(meta) {
            let i = choose|i: int| 0 <= i < stay.len() && stay[i] == meta;
            assert(!expired(stay[i], now));
        }
        assert(metas.contains(meta) ==> stay.contains(meta) || go.contains(meta));
    }
    assert forall|meta: RecordingMeta| #[trigger] listed.contains(meta) <==> metas.contains(meta)
        && (meta.saved || now - meta.created_at_ms <= 24 * 60 * 60 * 1000) by {
        assert(listed.contains(meta) <==> listed.to_multiset().count(meta) > 0);
        assert(stay.contains(meta) <==> stay.to_multiset().count(meta) > 0);
        if stay.contains(meta) {
            let i = choose|i: int| 0 <= i < stay.len() && stay[i] == meta;
            assert(!expired(stay[i], now));
        }
        if metas.contains(meta) && go.contains(meta) {
            let i = choose|i: int| 0 <= i < go.len() && go[i] == meta;
            assert(expired(go[i], now));
        }
        assert(metas.contains(meta) ==> stay.contains(meta) || go.contains(meta));
    }
}

/// What a transcription says of a recording: the text that came, without the white
/// space around it, or that nothing came, or why it failed; one of these and nothing
/// besides.
pub proof fn law_outcomes_are_told_apart(outcome: Result<Seq<char>, Seq<char>>)
    ensures
        ({
            let (status, text, error) = judged(outcome);
            &&& status == Status::Falhou <==> outcome is Err
            &&& outcome matches Err(reason) ==> error == Some(reason) && text is None
            &&& outcome is Ok ==> error is None
            &&& status == Status::Transcrito <==> text is Some
            &&& text matches Some(kept) ==> {
                &&& outcome is Ok
                &&& kept.len() > 0 && !is_white(kept[0]) && !is_white(kept.last())
                &&& exists|from: int, to: int|
                    0 <= from <= to <= outcome->Ok_0.len() && kept == #[trigger] outcome->Ok_0.subrange(
                        from,
                        to,
                    ) && (forall|i: int|
                        0 <= i < from || to <= i < outcome->Ok_0.len() ==> is_white(
                            #[trigger] outcome->Ok_0[i],
                        ))
            }
            &&& status == Status::Vazio <==> outcome is Ok && forall|i: int|
                0 <= i < outcome->Ok_0.len() ==> is_white(#[trigger] outcome->Ok_0[i])
            &&& status != Status::Pendente && status != Status::SemFala
        }),
{
    if outcome is Ok {
        let answer = outcome->Ok_0;
        let from = lemma_trim(answer);
        assert(trim(answer) == answer.subrange(from, from + trim(answer).len()));
    }
}

/// Asking to keep a recording keeps it.
pub proof fn law_saved_stays(meta: RecordingMeta, now: u64)
    ensures
        !expired(RecordingMeta { saved: true, ..meta }, now),
{
}

/// The recordings of a list that were made at a given time, in order.
pub open spec fn made_at(list: Seq<RecordingMeta>, time: u64) -> Seq<RecordingMeta>
    decreases list.len(),
{
    if list.len() == 0 {
        Seq::empty()
    } else if list.last().created_at_ms == time {
        made_at(list.drop_last(), time).push(list.last())
    } else {
        made_at(list.drop_last(), time)
    }
}

proof fn lemma_made_at_append(a: Seq<RecordingMeta>, b: Seq<RecordingMeta>, time: u64)
    ensures
        made_at(a + b, time) == made_at(a, time) + made_at(b, time),
    decreases b.len(),
{
    if b.len() == 0 {
        assert(a + b =~= a);
        assert(made_at(a, time) + made_at(b, time) =~= made_at(a, time));
    } else {
        assert((a + b).drop_last() =~= a + b.drop_last());
        lemma_made_at_append(a, b.drop_last(), time);
        assert(made_at(a + b, time) =~= made_at(a, time) + made_at(b, time));
    }
}

proof fn lemma_made_before(list: Seq<RecordingMeta>, time: u64)
    requires
        forall|i: int| 0 <= i < list.len() ==> (#[trigger] list[i]).created_at_ms < time,
    ensures
        made_at(list, time) == Seq::<RecordingMeta>::empty(),
    decreases list.len(),
{
    if list.len() > 0 {
        let front = list.drop_last();
        assert(list[list.len() - 1].created_at_ms < time);
        assert forall|i: int| 0 <= i < front.len() implies (#[trigger] front[i]).created_at_ms
            < time by {
            assert(front[i] == list[i]);
        }
        lemma_made_before(front, time);
    }
}

/// Of recordings that are as old, the order is the one in which they came.
pub proof fn law_as_old_stay_in_order(metas: Seq<RecordingMeta>, time: u64)
    ensures
        made_at(newest_first(metas), time) == made_at(metas, time),
    decreases metas.len(),
{
    if metas.len() > 0 {
        let front = metas.drop_last();
        let last = metas.last();
        let before = newest_first(front);
        let at = place_for(before, last);
        law_as_old_stay_in_order(front, time);
        law_list_is_newest_first(front);
        lemma_insert_keeps_order(before, last);
        lemma_place(before, last);
        let head = before.take(at);
        let rest = before.skip(at);
        let one = seq![last];
        assert(before.insert(at, last) =~= head + one + rest);
        assert(before =~= head + rest);
        lemma_made_at_append(head + one, rest, time);
        lemma_made_at_append(head, one, time);
        lemma_made_at_append(head, rest, time);
        reveal_with_fuel(made_at, 2);
        assert(one.drop_last() =~= Seq::<RecordingMeta>::empty());
        if last.created_at_ms == time {
            assert forall|i: int| 0 <= i < rest.len() implies (#[trigger] rest[i]).created_at_ms
                < time by {
                assert(rest[i] == before[at + i]);
            }
            lemma_made_before(rest, time);
            assert(made_at(newest_first(metas), time) =~= made_at(before, time).push(last));
        } else {
            assert(made_at(one, time) =~= Seq::<RecordingMeta>::empty());
            assert(made_at(newest_first(metas), time) =~= made_at(before, time));
        }
    } else {
        assert(newest_first(metas) =~= metas);
    }
}

} // verus!
