//! What the rows show of a stream.
use vstd::prelude::*;
use crate::decoders::engines::biphase_audio::blocks;
use crate::decoders::engines::biphase_audio::blocks::Block;
use crate::decoders::engines::biphase_audio::framing::{HeaderKind, Preamble, SubframeView};
use crate::decoders::engines::biphase_audio::rows;
use crate::decoders::engines::biphase_audio::stream_laws;
use crate::decoders::engines::biphase_audio::stream_laws::Sent;
use crate::decoders::engines::biphase_audio::{ParamsView, WordBits};
use crate::decoders::value::{ItemView, NumericRange, RowView, ValueView};

verus! {

/// Time slot `n` of a subframe, from 4 up to 31.
pub open spec fn slot(subframe: SubframeView, n: int) -> bool {
    subframe.bits[n - 4]
}

/// An item that lasts as long as a subframe.
pub open spec fn item_of(subframe: SubframeView, value: ValueView) -> ItemView {
    ItemView { start: subframe.start, end: subframe.end, value }
}

/// A single bit as a value.
pub open spec fn bit_shown(bit: bool) -> ValueView {
    ValueView::Integer {
        value: if bit {
            1
        } else {
            0
        },
        bits: 1,
    }
}

/// The rows with a name.
pub open spec fn rows_called(all: Seq<RowView>, name: Seq<char>) -> Seq<RowView>
    decreases all.len(),
{
    if all.len() == 0 {
        Seq::empty()
    } else {
        let rest = rows_called(all.drop_last(), name);
        if all.last().name == name {
            rest.push(all.last())
        } else {
            rest
        }
    }
}

proof fn called_in_parts(a: Seq<RowView>, b: Seq<RowView>, name: Seq<char>)
    ensures
        rows_called(a + b, name) == rows_called(a, name) + rows_called(b, name),
    decreases b.len(),
{
    if b.len() == 0 {
        assert(a + b =~= a);
        assert(rows_called(a, name) + rows_called(b, name) =~= rows_called(a, name));
    } else {
        called_in_parts(a, b.drop_last(), name);
        assert((a + b).drop_last() =~= a + b.drop_last());
        assert(rows_called(a + b, name) =~= rows_called(a, name) + rows_called(b, name));
    }
}

proof fn called_one(row: RowView, name: Seq<char>)
    ensures
        rows_called(seq![row], name) == (if row.name == name {
            seq![row]
        } else {
            Seq::<RowView>::empty()
        }),
{
    let all = seq![row];
    assert(all.drop_last() =~= Seq::<RowView>::empty());
    assert(rows_called(Seq::<RowView>::empty(), name) =~= Seq::<RowView>::empty());
    assert(rows_called(all, name) =~= (if row.name == name {
        seq![row]
    } else {
        Seq::<RowView>::empty()
    }));
}

proof fn called_shown(show: bool, shown: Seq<char>, items: Seq<ItemView>, name: Seq<char>)
    ensures
        rows_called(rows::shown_row(show, shown, items), name) == (if show && shown == name {
            seq![RowView { name: shown, numeric_range: None, items }]
        } else {
            Seq::<RowView>::empty()
        }),
{
    if show {
        called_one(RowView { name: shown, numeric_range: None, items }, name);
    } else {
        assert(rows::shown_row(show, shown, items) =~= Seq::<RowView>::empty());
    }
}

proof fn names_differ()
    ensures
        "A"@ != "B"@,
        forall|name: Seq<char>|
            (name == "A"@ || name == "B"@) ==> name != "validity"@ && name != "user"@ && name
                != "status"@ && name != "errors"@ && #[trigger] name.len() == 1 && name
                != "preamble"@,
        "validity"@ != "user"@,
        "validity"@ != "status"@,
        "validity"@ != "errors"@,
        "validity"@ != "preamble"@,
        "user"@ != "status"@,
        "user"@ != "errors"@,
        "user"@ != "preamble"@,
        "status"@ != "errors"@,
        "status"@ != "preamble"@,
        "errors"@ != "preamble"@,
{
    reveal_strlit("A");
    reveal_strlit("B");
    reveal_strlit("validity");
    reveal_strlit("user");
    reveal_strlit("status");
    reveal_strlit("errors");
    reveal_strlit("preamble");
    assert("A"@[0] == 'A' && "B"@[0] == 'B');
    assert("validity"@[0] == 'v' && "user"@[0] == 'u' && "status"@[0] == 's' && "errors"@[0] == 'e'
        && "preamble"@[0] == 'p');
}

proof fn row_is_shown(params: ParamsView, subframes: Seq<SubframeView>, name: Seq<char>)
    ensures
        ({
            let found = blocks::blocks_of(subframes, subframes.len() as int);
            let word_bits = rows::resolved_word_bits(params.word_bits, found);
            let errors = rows::sorted(
                rows::faults(subframes, subframes.len()) + blocks::block_errors(subframes),
            );
            rows_called(rows::rows_of(params, subframes), name) == rows_called(
                rows::audio_rows(params, subframes, word_bits),
                name,
            ) + rows_called(
                rows::shown_row(
                    params.show_validity,
                    "validity"@,
                    shown_bits(subframes, 28),
                ),
                name,
            ) + rows_called(
                rows::shown_row(params.show_user, "user"@, shown_bits(subframes, 29)),
                name,
            ) + rows_called(
                rows::shown_row(
                    params.show_status,
                    "status"@,
                    rows::status_items(params.word_bits, subframes, found),
                ),
                name,
            ) + rows_called(
                rows::shown_row(params.show_parity_errors, "errors"@, errors),
                name,
            ) + rows_called(
                rows::shown_row(
                    params.show_preambles,
                    "preamble"@,
                    rows::header_items(subframes),
                ),
                name,
            )
        }),
{
    let found = blocks::blocks_of(subframes, subframes.len() as int);
    let word_bits = rows::resolved_word_bits(params.word_bits, found);
    let errors = rows::sorted(
        rows::faults(subframes, subframes.len()) + blocks::block_errors(subframes),
    );
    assert(rows::bit_items(subframes, 24) =~= shown_bits(subframes, 28));
    assert(rows::bit_items(subframes, 25) =~= shown_bits(subframes, 29));
    let a = rows::audio_rows(params, subframes, word_bits);
    let b = rows::shown_row(params.show_validity, "validity"@, rows::bit_items(subframes, 24));
    let c = rows::shown_row(params.show_user, "user"@, rows::bit_items(subframes, 25));
    let d = rows::shown_row(
        params.show_status,
        "status"@,
        rows::status_items(params.word_bits, subframes, found),
    );
    let e = rows::shown_row(params.show_parity_errors, "errors"@, errors);
    let f = rows::shown_row(params.show_preambles, "preamble"@, rows::header_items(subframes));
    called_in_parts(a, b, name);
    called_in_parts(a + b, c, name);
    called_in_parts(a + b + c, d, name);
    called_in_parts(a + b + c + d, e, name);
    called_in_parts(a + b + c + d + e, f, name);
}

/// One slot of every subframe, as it is shown.
pub open spec fn shown_bits(subframes: Seq<SubframeView>, n: int) -> Seq<ItemView> {
    Seq::new(
        subframes.len(),
        |i: int| item_of(subframes[i], bit_shown(slot(subframes[i], n))),
    )
}

proof fn audio_is_called(
    params: ParamsView,
    subframes: Seq<SubframeView>,
    word_bits: u32,
    name: Seq<char>,
)
    ensures
        ({
            let all = rows::audio_rows(params, subframes, word_bits);
            rows_called(all, name) == rows_called(seq![all[0]], name) + rows_called(
                seq![all[1]],
                name,
            )
        }),
{
    let all = rows::audio_rows(params, subframes, word_bits);
    called_in_parts(seq![all[0]], seq![all[1]], name);
    assert(all =~= seq![all[0]] + seq![all[1]]);
    called_one(all[0], name);
    called_one(all[1], name);
}

/// The row "validity" shows slot 28 of every subframe, and the row "user" slot
/// 29, each as long as its subframe lasts. They are there exactly where they are
/// asked for.
pub proof fn validity_and_user_bits_are_shown(params: ParamsView, subframes: Seq<SubframeView>)
    ensures
        rows_called(rows::rows_of(params, subframes), "validity"@) == (if params.show_validity {
            seq![
                RowView {
                    name: "validity"@,
                    numeric_range: None,
                    items: Seq::new(
                        subframes.len(),
                        |i: int| item_of(subframes[i], bit_shown(slot(subframes[i], 28))),
                    ),
                },
            ]
        } else {
            Seq::<RowView>::empty()
        }),
        rows_called(rows::rows_of(params, subframes), "user"@) == (if params.show_user {
            seq![
                RowView {
                    name: "user"@,
                    numeric_range: None,
                    items: Seq::new(
                        subframes.len(),
                        |i: int| item_of(subframes[i], bit_shown(slot(subframes[i], 29))),
                    ),
                },
            ]
        } else {
            Seq::<RowView>::empty()
        }),
{
    names_differ();
    only_row(params, subframes, "validity"@);
    only_row(params, subframes, "user"@);
}

/// What a row other than those of the channels holds.
spec fn items_called(
    params: ParamsView,
    subframes: Seq<SubframeView>,
    name: Seq<char>,
) -> Option<Seq<ItemView>> {
    if name == "validity"@ {
        if params.show_validity {
            Some(shown_bits(subframes, 28))
        } else {
            None
        }
    } else if name == "user"@ {
        if params.show_user {
            Some(shown_bits(subframes, 29))
        } else {
            None
        }
    } else if name == "status"@ {
        if params.show_status {
            Some(
                rows::status_items(
                    params.word_bits,
                    subframes,
                    blocks::blocks_of(subframes, subframes.len() as int),
                ),
            )
        } else {
            None
        }
    } else if name == "errors"@ {
        if params.show_parity_errors {
            Some(
                rows::sorted(
                    rows::faults(subframes, subframes.len()) + blocks::block_errors(subframes),
                ),
            )
        } else {
            None
        }
    } else if name == "preamble"@ {
        if params.show_preambles {
            Some(rows::header_items(subframes))
        } else {
            None
        }
    } else {
        None
    }
}

proof fn only_row(params: ParamsView, subframes: Seq<SubframeView>, name: Seq<char>)
    requires
        name == "validity"@ || name == "user"@ || name == "status"@ || name == "errors"@ || name
            == "preamble"@,
    ensures
        rows_called(rows::rows_of(params, subframes), name) == (match items_called(
            params,
            subframes,
            name,
        ) {
            Some(items) => seq![RowView { name, numeric_range: None, items }],
            None => Seq::<RowView>::empty(),
        }),
{
    names_differ();
    let found = blocks::blocks_of(subframes, subframes.len() as int);
    let word_bits = rows::resolved_word_bits(params.word_bits, found);
    let errors = rows::sorted(
        rows::faults(subframes, subframes.len()) + blocks::block_errors(subframes),
    );
    let status = rows::status_items(params.word_bits, subframes, found);
    row_is_shown(params, subframes, name);
    audio_is_called(params, subframes, word_bits, name);
    let audio = rows::audio_rows(params, subframes, word_bits);
    called_one(audio[0], name);
    called_one(audio[1], name);
    assert("A"@.len() == 1 && "B"@.len() == 1) by {
        reveal_strlit("A");
        reveal_strlit("B");
    }
    called_shown(params.show_validity, "validity"@, shown_bits(subframes, 28), name);
    called_shown(params.show_user, "user"@, shown_bits(subframes, 29), name);
    called_shown(params.show_status, "status"@, status, name);
    called_shown(params.show_parity_errors, "errors"@, errors, name);
    called_shown(params.show_preambles, "preamble"@, rows::header_items(subframes), name);
    assert(rows_called(rows::rows_of(params, subframes), name) =~= (match items_called(
        params,
        subframes,
        name,
    ) {
        Some(items) => seq![RowView { name, numeric_range: None, items }],
        None => Seq::<RowView>::empty(),
    }));
}

/// The subframes on a channel.
pub open spec fn on_channel(subframes: Seq<SubframeView>, channel: u8) -> Seq<SubframeView> {
    subframes.filter(|subframe: SubframeView| subframe.channel == Some(channel))
}

/// The samples of subframes.
pub open spec fn samples_shown(
    subframes: Seq<SubframeView>,
    word_bits: u32,
    signed: bool,
) -> Seq<ItemView> {
    Seq::new(
        subframes.len(),
        |i: int|
            item_of(
                subframes[i],
                ValueView::Integer {
                    value: rows::sample_of(subframes[i].bits, word_bits, signed),
                    bits: word_bits as nat,
                },
            ),
    )
}

proof fn samples_on_channel(
    subframes: Seq<SubframeView>,
    n: nat,
    channel: u8,
    word_bits: u32,
    signed: bool,
)
    requires
        n <= subframes.len(),
    ensures
        rows::sample_items(subframes, n, channel, word_bits, signed) == samples_shown(
            on_channel(subframes.take(n as int), channel),
            word_bits,
            signed,
        ),
    decreases n,
{
    reveal(Seq::filter);
    let taken = subframes.take(n as int);
    if n > 0 {
        samples_on_channel(subframes, (n - 1) as nat, channel, word_bits, signed);
        assert(taken.drop_last() =~= subframes.take(n - 1));
        assert(taken.last() == subframes[n - 1]);
    }
    assert(rows::sample_items(subframes, n, channel, word_bits, signed) =~= samples_shown(
        on_channel(taken, channel),
        word_bits,
        signed,
    ));
}

/// Row "A" shows the samples of the subframes on channel 0, and row "B" those on
/// channel 1, in their order and each as long as its subframe lasts. A subframe
/// without a channel is in neither.
pub proof fn samples_are_shown(params: ParamsView, subframes: Seq<SubframeView>)
    ensures
        ({
            let word_bits = rows::resolved_word_bits(
                params.word_bits,
                blocks::blocks_of(subframes, subframes.len() as int),
            );
            let range = Some(NumericRange { bits: word_bits, signed: params.signed });
            &&& rows_called(rows::rows_of(params, subframes), "A"@) == seq![
                RowView {
                    name: "A"@,
                    numeric_range: range,
                    items: samples_shown(on_channel(subframes, 0), word_bits, params.signed),
                },
            ]
            &&& rows_called(rows::rows_of(params, subframes), "B"@) == seq![
                RowView {
                    name: "B"@,
                    numeric_range: range,
                    items: samples_shown(on_channel(subframes, 1), word_bits, params.signed),
                },
            ]
        }),
{
    names_differ();
    assert("A"@.len() == 1 && "B"@.len() == 1) by {
        reveal_strlit("A");
        reveal_strlit("B");
    }
    let found = blocks::blocks_of(subframes, subframes.len() as int);
    let word_bits = rows::resolved_word_bits(params.word_bits, found);
    samples_on_channel(subframes, subframes.len(), 0, word_bits, params.signed);
    samples_on_channel(subframes, subframes.len(), 1, word_bits, params.signed);
    assert(subframes.take(subframes.len() as int) =~= subframes);
    audio_row(params, subframes, "A"@);
    audio_row(params, subframes, "B"@);
}

proof fn audio_row(params: ParamsView, subframes: Seq<SubframeView>, name: Seq<char>)
    requires
        name == "A"@ || name == "B"@,
    ensures
        ({
            let found = blocks::blocks_of(subframes, subframes.len() as int);
            let word_bits = rows::resolved_word_bits(params.word_bits, found);
            rows_called(rows::rows_of(params, subframes), name) == seq![
                rows::audio_rows(params, subframes, word_bits)[if name == "A"@ {
                    0int
                } else {
                    1int
                }],
            ]
        }),
{
    names_differ();
    assert("A"@.len() == 1 && "B"@.len() == 1) by {
        reveal_strlit("A");
        reveal_strlit("B");
    }
    assert(name.len() == 1);
    let found = blocks::blocks_of(subframes, subframes.len() as int);
    let word_bits = rows::resolved_word_bits(params.word_bits, found);
    let errors = rows::sorted(
        rows::faults(subframes, subframes.len()) + blocks::block_errors(subframes),
    );
    let status = rows::status_items(params.word_bits, subframes, found);
    let audio = rows::audio_rows(params, subframes, word_bits);
    row_is_shown(params, subframes, name);
    audio_is_called(params, subframes, word_bits, name);
    called_one(audio[0], name);
    called_one(audio[1], name);
    called_shown(params.show_validity, "validity"@, shown_bits(subframes, 28), name);
    called_shown(params.show_user, "user"@, shown_bits(subframes, 29), name);
    called_shown(params.show_status, "status"@, status, name);
    called_shown(params.show_parity_errors, "errors"@, errors, name);
    called_shown(params.show_preambles, "preamble"@, rows::header_items(subframes), name);
    let at: int = if name == "A"@ {
        0
    } else {
        1
    };
    assert(rows_called(rows::rows_of(params, subframes), name) =~= seq![audio[at]]);
}

/// The row "preamble" shows the header of every subframe: M, W and B for the
/// preambles X, Y and Z.
pub proof fn headers_are_shown(params: ParamsView, subframes: Seq<SubframeView>)
    ensures
        rows_called(rows::rows_of(params, subframes), "preamble"@) == (if params.show_preambles {
            seq![
                RowView {
                    name: "preamble"@,
                    numeric_range: None,
                    items: Seq::new(
                        subframes.len(),
                        |i: int|
                            item_of(
                                subframes[i],
                                ValueView::Text(
                                    if subframes[i].header == HeaderKind::Standard(Preamble::X) {
                                        "Preamble M"@
                                    } else if subframes[i].header == HeaderKind::Standard(
                                        Preamble::Y,
                                    ) {
                                        "Preamble W"@
                                    } else if subframes[i].header == HeaderKind::Standard(
                                        Preamble::Z,
                                    ) {
                                        "Preamble B"@
                                    } else {
                                        "Unknown Preamble"@
                                    },
                                ),
                            ),
                    ),
                },
            ]
        } else {
            Seq::<RowView>::empty()
        }),
{
    names_differ();
    only_row(params, subframes, "preamble"@);
    let items = Seq::new(
        subframes.len(),
        |i: int|
            item_of(
                subframes[i],
                ValueView::Text(
                    if subframes[i].header == HeaderKind::Standard(Preamble::X) {
                        "Preamble M"@
                    } else if subframes[i].header == HeaderKind::Standard(Preamble::Y) {
                        "Preamble W"@
                    } else if subframes[i].header == HeaderKind::Standard(Preamble::Z) {
                        "Preamble B"@
                    } else {
                        "Unknown Preamble"@
                    },
                ),
            ),
    );
    assert(rows::header_items(subframes) =~= items);
}

/// What is wrong with a single subframe: an item says so.
pub open spec fn is_fault(subframe: SubframeView, item: ItemView) -> bool {
    ||| subframe.header == HeaderKind::Unknown && item == item_of(
        subframe,
        ValueView::Text("Unknown Preamble"@),
    )
    ||| rows::ones(subframe.bits) % 2 == 1 && item == item_of(
        subframe,
        ValueView::Text("parity"@),
    )
}

/// Whether an item is the fault of a subframe, or that of a block.
pub open spec fn is_error(subframes: Seq<SubframeView>, item: ItemView) -> bool {
    ||| exists|i: int| 0 <= i < subframes.len() && is_fault(#[trigger] subframes[i], item)
    ||| blocks::block_errors(subframes).contains(item)
}

proof fn faults_are_found(subframes: Seq<SubframeView>, n: nat, item: ItemView)
    requires
        n <= subframes.len(),
    ensures
        rows::faults(subframes, n).contains(item) <==> exists|i: int|
            0 <= i < n && is_fault(#[trigger] subframes[i], item),
    decreases n,
{
    let all = rows::faults(subframes, n);
    if n > 0 {
        let rest = rows::faults(subframes, (n - 1) as nat);
        let last = rows::subframe_faults(subframes[n - 1]);
        faults_are_found(subframes, (n - 1) as nat, item);
        contains_parts(rest, last, item);
        assert(last.contains(item) <==> is_fault(subframes[n - 1], item)) by {
            let subframe = subframes[n - 1];
            if subframe.header == HeaderKind::Unknown {
                assert(last[0] == item_of(subframe, ValueView::Text("Unknown Preamble"@)));
                if rows::ones(subframe.bits) % 2 == 1 {
                    assert(last[1] == item_of(subframe, ValueView::Text("parity"@)));
                }
            } else if rows::ones(subframe.bits) % 2 == 1 {
                assert(last[0] == item_of(subframe, ValueView::Text("parity"@)));
            }
        }
    }
}

proof fn contains_parts(a: Seq<ItemView>, b: Seq<ItemView>, item: ItemView)
    ensures
        (a + b).contains(item) <==> a.contains(item) || b.contains(item),
{
    let all = a + b;
    if a.contains(item) {
        let i = choose|i: int| 0 <= i < a.len() && a[i] == item;
        assert(all[i] == item);
    }
    if b.contains(item) {
        let i = choose|i: int| 0 <= i < b.len() && b[i] == item;
        assert(all[a.len() + i] == item);
    }
}

/// The row "errors" holds exactly the faults of the subframes (a header that is
/// no preamble, and a parity that is not even) and the blocks of a wrong length,
/// in the order of their times.
pub proof fn errors_are_shown(params: ParamsView, subframes: Seq<SubframeView>)
    requires
        params.show_parity_errors,
    ensures
        ({
            let shown = rows_called(rows::rows_of(params, subframes), "errors"@);
            &&& shown.len() == 1
            &&& shown[0].numeric_range is None
            &&& rows::in_start_order(shown[0].items)
            &&& forall|item: ItemView| #[trigger]
                shown[0].items.contains(item) <==> is_error(subframes, item)
        }),
{
    broadcast use vstd::seq_lib::group_to_multiset_ensures;

    names_differ();
    only_row(params, subframes, "errors"@);
    let found = rows::faults(subframes, subframes.len()) + blocks::block_errors(subframes);
    let shown = rows::sorted(found);
    rows::sorted_in_order(found);
    assert forall|item: ItemView| #[trigger] shown.contains(item) <==> is_error(subframes, item) by {
        faults_are_found(subframes, subframes.len(), item);
        contains_parts(
            rows::faults(subframes, subframes.len()),
            blocks::block_errors(subframes),
            item,
        );
        assert(shown.contains(item) <==> shown.to_multiset().count(item) > 0);
        assert(found.contains(item) <==> found.to_multiset().count(item) > 0);
    }
}

/// The rows come in one order: A, B, validity, user, status, errors, preamble,
/// without those that are not asked for.
pub proof fn rows_are_in_order(params: ParamsView, subframes: Seq<SubframeView>)
    ensures
        ({
            let when = |show: bool, name: Seq<char>|
                if show {
                    seq![name]
                } else {
                    Seq::<Seq<char>>::empty()
                };
            let all = rows::rows_of(params, subframes);
            Seq::new(all.len(), |i: int| all[i].name) == seq!["A"@, "B"@] + when(
                params.show_validity,
                "validity"@,
            ) + when(params.show_user, "user"@) + when(params.show_status, "status"@) + when(
                params.show_parity_errors,
                "errors"@,
            ) + when(params.show_preambles, "preamble"@)
        }),
{
    let when = |show: bool, name: Seq<char>|
        if show {
            seq![name]
        } else {
            Seq::<Seq<char>>::empty()
        };
    let all = rows::rows_of(params, subframes);
    let names = seq!["A"@, "B"@] + when(params.show_validity, "validity"@) + when(
        params.show_user,
        "user"@,
    ) + when(params.show_status, "status"@) + when(params.show_parity_errors, "errors"@) + when(
        params.show_preambles,
        "preamble"@,
    );
    assert(Seq::new(all.len(), |i: int| all[i].name) =~= names);
}

/// A given word length is the one to decode with. An automatic one is that of
/// the first block that states one, where channel A comes before channel B, and
/// 24 bits where none does.
pub proof fn word_length_is_resolved(found: Seq<Block>, first: int)
    requires
        0 <= first <= found.len(),
        forall|i: int|
            0 <= i < first ==> (#[trigger] found[i]).status_a.word_bits is None
                && found[i].status_b.word_bits is None,
    ensures
        forall|bits: u32| #[trigger] rows::resolved_word_bits(WordBits::Bits(bits), found) == bits,
        first == found.len() ==> rows::resolved_word_bits(WordBits::Auto, found) == 24,
        first < found.len() ==> {
            let (a, b) = (found[first].status_a.word_bits, found[first].status_b.word_bits);
            &&& a matches Some(bits) ==> rows::resolved_word_bits(WordBits::Auto, found) == bits
            &&& a is None ==> (b matches Some(bits) ==> rows::resolved_word_bits(
                WordBits::Auto,
                found,
            ) == bits)
        },
{
    no_length_before(found, 0, first);
}

proof fn no_length_before(found: Seq<Block>, from: int, first: int)
    requires
        0 <= from <= first <= found.len(),
        forall|i: int|
            0 <= i < first ==> (#[trigger] found[i]).status_a.word_bits is None
                && found[i].status_b.word_bits is None,
    ensures
        rows::stated_word_bits(found, from) == rows::stated_word_bits(found, first),
    decreases first - from,
{
    if from < first {
        assert(found[from].status_a.word_bits is None);
        no_length_before(found, from + 1, first);
    }
}

/// What a subframe is to carry.
pub struct Payload {
    pub preamble: Preamble,
    pub sample: int,
    pub validity: bool,
    pub user: bool,
    pub status: bool,
}

/// The subframe that carries a payload: the sample up to slot 27, then the
/// validity, user and status bits, and a parity bit that makes the number of
/// ones even.
pub open spec fn coded(payload: Payload, word_bits: u32) -> Sent {
    let carried = stream_laws::sample_slots(payload.sample, word_bits) + seq![
        payload.validity,
        payload.user,
        payload.status,
    ];
    Sent {
        preamble: payload.preamble,
        bits: carried.push(rows::ones(carried) % 2 == 1),
    }
}

/// The stream that carries payloads.
pub open spec fn coded_stream(payloads: Seq<Payload>, word_bits: u32) -> Seq<Sent> {
    Seq::new(payloads.len(), |i: int| coded(payloads[i], word_bits))
}

/// The validity bits, user bits and headers that are sent are the ones that the
/// rows show, at the times of their subframes, and no parity error is reported.
pub proof fn payloads_are_shown(
    params: ParamsView,
    payloads: Seq<Payload>,
    word_bits: u32,
    start: u64,
    half_period: u64,
    clocked: bool,
)
    ensures
        ({
            let stream = coded_stream(payloads, word_bits);
            let found = stream_laws::subframes_sent(stream, start, half_period, clocked);
            let all = rows::rows_of(params, found);
            &&& stream_laws::well_formed(stream)
            &&& params.show_validity ==> rows_called(all, "validity"@).len() == 1
            &&& params.show_user ==> rows_called(all, "user"@).len() == 1
            &&& forall|i: int|
                0 <= i < payloads.len() && params.show_validity ==> rows_called(
                    all,
                    "validity"@,
                )[0].items[i] == item_of(
                    found[i],
                    bit_shown((#[trigger] payloads[i]).validity),
                )
            &&& forall|i: int|
                0 <= i < payloads.len() && params.show_user ==> rows_called(
                    all,
                    "user"@,
                )[0].items[i] == item_of(found[i], bit_shown((#[trigger] payloads[i]).user))
            &&& forall|i: int|
                0 <= i < payloads.len() ==> slot(#[trigger] found[i], 30) == payloads[i].status
            &&& rows::faults(found, found.len()).len() == 0
        }),
{
    let stream = coded_stream(payloads, word_bits);
    let found = stream_laws::subframes_sent(stream, start, half_period, clocked);
    validity_and_user_bits_are_shown(params, found);
    assert forall|i: int| 0 <= i < payloads.len() implies {
        &&& (#[trigger] found[i]).bits == coded(payloads[i], word_bits).bits
        &&& rows::ones(found[i].bits) % 2 == 0
        &&& found[i].header != HeaderKind::Unknown
        &&& slot(found[i], 28) == payloads[i].validity
        &&& slot(found[i], 29) == payloads[i].user
        &&& slot(found[i], 30) == payloads[i].status
    } by {
        coded_slots(payloads[i], word_bits);
    }
    stream_laws::no_faults(found, found.len());
    assert forall|i: int| 0 <= i < stream.len() implies (#[trigger] stream[i]).bits.len() == 28 by {
        coded_slots(payloads[i], word_bits);
    }
}

proof fn coded_slots(payload: Payload, word_bits: u32)
    ensures
        ({
            let bits = coded(payload, word_bits).bits;
            &&& bits.len() == 28
            &&& bits[24] == payload.validity
            &&& bits[25] == payload.user
            &&& bits[26] == payload.status
            &&& rows::ones(bits) % 2 == 0
        }),
{
    let carried = stream_laws::sample_slots(payload.sample, word_bits) + seq![
        payload.validity,
        payload.user,
        payload.status,
    ];
    let bits = coded(payload, word_bits).bits;
    assert(bits.drop_last() =~= carried);
}

/// Whether a sample has no more than the given number of bits.
pub open spec fn fits(sample: int, word_bits: u32, signed: bool) -> bool {
    let range = NumericRange { bits: word_bits, signed };
    range.min() <= sample <= range.max()
}

/// The samples that are sent are the ones that the rows show: those behind the
/// preambles X and Z in row A, and those behind Y in row B.
pub proof fn samples_sent_are_shown(
    params: ParamsView,
    payloads: Seq<Payload>,
    word_bits: u32,
    start: u64,
    half_period: u64,
    clocked: bool,
)
    requires
        16 <= word_bits <= 24,
        params.word_bits == WordBits::Bits(word_bits),
        forall|i: int|
            0 <= i < payloads.len() ==> fits(
                (#[trigger] payloads[i]).sample,
                word_bits,
                params.signed,
            ),
        forall|i: int|
            0 <= i < payloads.len() ==> ((#[trigger] payloads[i]).preamble == Preamble::Y <==> i % 2
                == 1),
    ensures
        ({
            let stream = coded_stream(payloads, word_bits);
            let found = stream_laws::subframes_sent(stream, start, half_period, clocked);
            let all = rows::rows_of(params, found);
            let shown = |k: int|
                item_of(
                    found[k],
                    ValueView::Integer { value: payloads[k].sample, bits: word_bits as nat },
                );
            &&& rows_called(all, "A"@).len() == 1 && rows_called(all, "B"@).len() == 1
            &&& rows_called(all, "A"@)[0].items == Seq::new(
                ((payloads.len() + 1) / 2) as nat,
                |f: int| shown(2 * f),
            )
            &&& rows_called(all, "B"@)[0].items == Seq::new(
                (payloads.len() / 2) as nat,
                |f: int| shown(2 * f + 1),
            )
        }),
{
    let stream = coded_stream(payloads, word_bits);
    let found = stream_laws::subframes_sent(stream, start, half_period, clocked);
    samples_are_shown(params, found);
    assert(found.take(found.len() as int) =~= found);
    assert forall|i: int| 0 <= i < found.len() implies (#[trigger] found[i]).channel == Some(
        (i % 2) as u8,
    ) by {
        assert(payloads[i].preamble == Preamble::Y <==> i % 2 == 1);
    }
    stereo(found, found.len());
    assert forall|i: int| 0 <= i < found.len() implies rows::sample_of(
        (#[trigger] found[i]).bits,
        word_bits,
        params.signed,
    ) == payloads[i].sample by {
        assert(fits(payloads[i].sample, word_bits, params.signed));
        let bits = coded(payloads[i], word_bits).bits;
        assert(found[i].bits == bits);
        assert(bits.take(24) =~= stream_laws::sample_slots(payloads[i].sample, word_bits));
        stream_laws::sample_reads_back(payloads[i].sample, word_bits, params.signed, bits);
    }
    let all = rows::rows_of(params, found);
    let shown = |k: int|
        item_of(
            found[k],
            ValueView::Integer { value: payloads[k].sample, bits: word_bits as nat },
        );
    assert(rows_called(all, "A"@)[0].items =~= Seq::new(
        ((payloads.len() + 1) / 2) as nat,
        |f: int| shown(2 * f),
    ));
    assert(rows_called(all, "B"@)[0].items =~= Seq::new(
        (payloads.len() / 2) as nat,
        |f: int| shown(2 * f + 1),
    ));
}

proof fn stereo(subframes: Seq<SubframeView>, n: nat)
    requires
        n <= subframes.len(),
        forall|i: int|
            0 <= i < subframes.len() ==> (#[trigger] subframes[i]).channel == Some((i % 2) as u8),
    ensures
        on_channel(subframes.take(n as int), 0) == Seq::new(
            ((n + 1) / 2) as nat,
            |f: int| subframes[2 * f],
        ),
        on_channel(subframes.take(n as int), 1) == Seq::new(
            (n / 2) as nat,
            |f: int| subframes[2 * f + 1],
        ),
    decreases n,
{
    reveal(Seq::filter);
    let taken = subframes.take(n as int);
    if n > 0 {
        stereo(subframes, (n - 1) as nat);
        assert(taken.drop_last() =~= subframes.take(n - 1));
        assert(taken.last() == subframes[n - 1]);
        assert(subframes[n - 1].channel == Some(((n - 1) % 2) as u8));
    }
    assert(on_channel(taken, 0) =~= Seq::new(((n + 1) / 2) as nat, |f: int| subframes[2 * f]));
    assert(on_channel(taken, 1) =~= Seq::new((n / 2) as nat, |f: int| subframes[2 * f + 1]));
}

/// The row "status" shows every block from its beginning to its end. Where the
/// word length is automatic and there is no block, it says over the whole stream
/// that the length is assumed.
pub proof fn status_is_shown(params: ParamsView, subframes: Seq<SubframeView>)
    requires
        params.show_status,
    ensures
        ({
            let shown = rows_called(rows::rows_of(params, subframes), "status"@);
            let found = blocks::blocks_of(subframes, subframes.len() as int);
            &&& shown.len() == 1
            &&& shown[0].numeric_range is None
            &&& params.word_bits == WordBits::Auto && found.len() == 0 && subframes.len() > 0
                ==> shown[0].items == seq![
                ItemView {
                    start: subframes[0].start,
                    end: subframes[subframes.len() - 1].end,
                    value: ValueView::Text("word length: 24-bit assumed (no channel status)"@),
                },
            ]
            &&& found.len() > 0 || params.word_bits != WordBits::Auto ==> {
                &&& shown[0].items.len() == found.len()
                &&& forall|j: int|
                    0 <= j < found.len() ==> (#[trigger] shown[0].items[j]) == (ItemView {
                        start: found[j].start,
                        end: found[j].end,
                        value: ValueView::Text(blocks::block_words(found[j])),
                    })
            }
        }),
{
    names_differ();
    only_row(params, subframes, "status"@);
}

/// The items that start at a time, in their order.
pub open spec fn starting_at(items: Seq<ItemView>, time: u64) -> Seq<ItemView> {
    items.filter(|item: ItemView| item.start == time)
}

proof fn starting_one_more(items: Seq<ItemView>, item: ItemView, time: u64)
    ensures
        starting_at(items.push(item), time) == (if item.start == time {
            starting_at(items, time).push(item)
        } else {
            starting_at(items, time)
        }),
{
    reveal(Seq::filter);
    assert(items.push(item).drop_last() =~= items);
}

proof fn insertion_keeps_order(items: Seq<ItemView>, item: ItemView, time: u64)
    requires
        rows::in_start_order(items),
    ensures
        starting_at(rows::inserted(items, item), time) == starting_at(items.push(item), time),
    decreases items.len(),
{
    if items.len() > 0 && items.last().start > item.start {
        let front = items.drop_last();
        assert forall|i: int, j: int| 0 <= i <= j < front.len() implies (#[trigger] front[i]).start
            <= (#[trigger] front[j]).start by {
            assert(items[i].start <= items[j].start);
        }
        insertion_keeps_order(front, item, time);
        assert(items =~= front.push(items.last()));
        starting_one_more(front, items.last(), time);
        starting_one_more(items, item, time);
        starting_one_more(front, item, time);
        starting_one_more(rows::inserted(front, item), items.last(), time);
    }
}

/// Errors that start together keep their order: those of the subframes before
/// those of the blocks, and an unknown preamble before a parity error.
pub proof fn errors_keep_their_order(items: Seq<ItemView>, time: u64)
    ensures
        starting_at(rows::sorted(items), time) == starting_at(items, time),
    decreases items.len(),
{
    if items.len() > 0 {
        let front = items.drop_last();
        errors_keep_their_order(front, time);
        rows::sorted_in_order(front);
        insertion_keeps_order(rows::sorted(front), items.last(), time);
        assert(items =~= front.push(items.last()));
        starting_one_more(front, items.last(), time);
        starting_one_more(rows::sorted(front), items.last(), time);
    }
}

/// A subframe carries between 16 and 24 bits of a sample: a shorter word is read
/// as one of 16 bits, and a longer one as one of 24.
pub proof fn subframes_carry_sixteen_bits_or_more(bits: Seq<bool>, word_bits: u32)
    ensures
        word_bits < 16 ==> rows::sample_of(bits, word_bits, false) == rows::sample_of(
            bits,
            16,
            false,
        ),
        word_bits > 24 ==> rows::sample_of(bits, word_bits, false) == rows::sample_of(
            bits,
            24,
            false,
        ),
{
}

} // verus!
