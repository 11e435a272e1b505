//! Derived implementations write what they read.

use crate::arbitrary::Arbitrary;
use crate::dearbitrary::Dearbitrary;
use crate::derive::hinting;
use crate::derive::input;
use crate::derive::input::{FieldConstructor, Variant};
use crate::derive::reading;
use crate::derive::reading::{FieldRead, VariantRead};
use crate::derive::selector;
use crate::derive::writing;
use crate::derive::writing::VariantWrite;
use crate::layout;
use crate::layout::Piece;
use crate::unstructured::Error;
use vstd::prelude::*;

verus! {

/// Whether a derived reader takes a field out of the data.
pub open spec fn consumes(r: FieldRead) -> bool {
    r is Arbitrary || r is TakeRest || r is With
}

proof fn lemma_written(constructors: Seq<Option<FieldConstructor>>)
    ensures
        forall|i: nat|
            #[trigger] writing::written(constructors).contains(i) <==> i < constructors.len()
                && writing::takes_bytes(constructors[i as int]->0),
        forall|j: int, k: int|
            0 <= j < k < writing::written(constructors).len() ==> (#[trigger] writing::written(
                constructors,
            )[j]) < (#[trigger] writing::written(constructors)[k]),
    decreases constructors.len(),
{
    if constructors.len() > 0 {
        let b = constructors.drop_last();
        lemma_written(b);
        let w = writing::written(constructors);
        let wb = writing::written(b);
        assert forall|k: int| 0 <= k < wb.len() implies (#[trigger] wb[k]) < b.len() by {
            assert(wb.contains(wb[k]));
        }
        assert forall|i: nat|
            #[trigger] w.contains(i) <==> i < constructors.len() && writing::takes_bytes(
                constructors[i as int]->0,
            ) by {
            if w.contains(i) {
                let k = choose|k: int| 0 <= k < w.len() && w[k] == i;
                if k < wb.len() {
                    assert(wb[k] == i);
                    assert(wb.contains(i));
                    assert(b[i as int] == constructors[i as int]);
                }
            }
            if i < constructors.len() && writing::takes_bytes(constructors[i as int]->0) {
                if i < b.len() {
                    assert(b[i as int] == constructors[i as int]);
                    assert(wb.contains(i));
                    let k = choose|k: int| 0 <= k < wb.len() && wb[k] == i;
                    assert(w[k] == i);
                } else {
                    assert(w[w.len() - 1] == i);
                }
            }
        }
        assert forall|j: int, k: int| 0 <= j < k < w.len() implies (#[trigger] w[j]) < (
        #[trigger] w[k]) by {
            assert(w[j] == wb[j]);
            if k < wb.len() {
                assert(w[k] == wb[k]);
            }
        }
    }
}

/// The fields that a derived writer writes are those that the derived reader takes
/// out of the data, in the same order.
pub proof fn law_written_fields_are_read(
    constructors: Seq<Option<FieldConstructor>>,
    rest: bool,
)
    ensures
        forall|i: nat|
            #[trigger] writing::written(constructors).contains(i) <==> i < constructors.len()
                && consumes(reading::field_reads(constructors, rest)[i as int]),
        forall|j: int, k: int|
            0 <= j < k < writing::written(constructors).len() ==> (#[trigger] writing::written(
                constructors,
            )[j]) < (#[trigger] writing::written(constructors)[k]),
{
    lemma_written(constructors);
}

/// The size hint counts no bytes for exactly those fields that are not written.
pub proof fn law_hints_skip_unwritten_fields(
    constructors: Seq<Option<FieldConstructor>>,
    i: int,
)
    requires
        0 <= i < constructors.len(),
    ensures
        hinting::field_hints(constructors)[i] is Zero <==> !writing::written(
            constructors,
        ).contains(i as nat),
{
    lemma_written(constructors);
    assert(writing::written(constructors).contains(i as nat) <==> (i as nat)
        < constructors.len() && writing::takes_bytes(constructors[i as nat as int]->0));
}

/// Reading with all that is left differs from reading in the last field alone, and
/// there only where that field is read by its type.
pub proof fn law_take_rest_differs_in_the_last_field(
    constructors: Seq<Option<FieldConstructor>>,
    i: int,
)
    requires
        0 <= i < constructors.len(),
    ensures
        reading::field_reads(constructors, true)[i] != reading::field_reads(
            constructors,
            false,
        )[i] <==> i + 1 == constructors.len() && constructors[i]->0 is Arbitrary,
{
}

/// The last field is written for a reader that gives it all that is left exactly
/// where the derived reader does so.
pub proof fn law_rest_is_written_where_it_is_taken(constructors: Seq<Option<FieldConstructor>>)
    requires
        input::all_valid(constructors),
        constructors.len() > 0,
    ensures
        writing::gives_rest(constructors) <==> reading::field_reads(constructors, true).last()
            is TakeRest,
{
    assert(constructors[constructors.len() - 1] is Some);
}

/// The arm that writes a variant writes the selector that chooses the arm which
/// reads that variant.
pub proof fn law_written_variants_are_chosen(
    variants: Seq<Variant>,
    reads: Seq<VariantRead>,
    writes: Seq<VariantWrite>,
    rest: bool,
    k: int,
)
    requires
        writing::writable(variants),
        reading::arms_read(reads, variants, rest),
        writing::arms_write(writes, variants, input::kept(variants).len() as int),
        0 <= k < writes.len(),
    ensures
        selector::chosen(writes[k].selector as int, reads.len() as int) == reads[k].index,
        reads[k].variant == writes[k].variant,
{
    selector::law_selector_chooses_its_variant(k, input::kept(variants).len() as int);
    assert(writes[k].variant == input::kept(variants)[k]);
    assert(reads[k].index == k);
}

/// A reader of one field, as what it makes of the data and what it leaves.
pub type FieldReader<M> = spec_fn(Seq<u8>) -> (Result<M, Error>, Seq<u8>);

/// Whether a reader that meets `pieces` reads `value`.
pub open spec fn field_reads_back<M>(
    reader: FieldReader<M>,
    pieces: Seq<Piece>,
    value: M,
) -> bool {
    forall|data: Seq<u8>|
        (#[trigger] layout::take_pieces(pieces, data)) is Some ==> reader(data) == (
            Ok::<M, Error>(value),
            layout::take_pieces(pieces, data)->0,
        )
}

/// What a derived reader makes of its first `n` fields: those that take bytes are
/// read one after another, the others get their `fixed` values.
pub open spec fn read_fields<M>(
    reads: Seq<FieldRead>,
    readers: Seq<FieldReader<M>>,
    fixed: Seq<M>,
    n: nat,
    data: Seq<u8>,
) -> (Result<Seq<M>, Error>, Seq<u8>)
    decreases n,
{
    if n == 0 {
        (Ok(Seq::empty()), data)
    } else {
        let (before, rest) = read_fields(reads, readers, fixed, (n - 1) as nat, data);
        match before {
            Err(e) => (Err(e), rest),
            Ok(values) => if consumes(reads[n - 1]) {
                let (value, left) = readers[n - 1](rest);
                match value {
                    Err(e) => (Err(e), left),
                    Ok(v) => (Ok(values.push(v)), left),
                }
            } else {
                (Ok(values.push(fixed[n - 1])), rest)
            },
        }
    }
}

/// The pieces that a derived writer writes for the fields at these positions.
pub open spec fn written_pieces(writes: Seq<nat>, pieces: Seq<Seq<Piece>>) -> Seq<Piece>
    decreases writes.len(),
{
    if writes.len() == 0 {
        Seq::empty()
    } else {
        written_pieces(writes.drop_last(), pieces) + pieces[writes.last() as int]
    }
}

/// Whether `values` are field values that a derived implementation keeps: each
/// field that takes bytes reads back from its pieces, each other field has its
/// fixed value.
pub open spec fn fields_read_back<M>(
    constructors: Seq<Option<FieldConstructor>>,
    readers: Seq<FieldReader<M>>,
    fixed: Seq<M>,
    pieces: Seq<Seq<Piece>>,
    values: Seq<M>,
) -> bool {
    &&& values.len() == constructors.len()
    &&& forall|i: int|
        0 <= i < constructors.len() ==> if writing::takes_bytes(#[trigger] constructors[i]->0) {
            field_reads_back(readers[i], pieces[i], values[i])
        } else {
            fixed[i] == values[i]
        }
}

/// Whether a derived reader that does `reads` for the fields finds the first `n`
/// of them.
spec fn first_read_back<M>(
    constructors: Seq<Option<FieldConstructor>>,
    reads: Seq<FieldRead>,
    readers: Seq<FieldReader<M>>,
    fixed: Seq<M>,
    pieces: Seq<Seq<Piece>>,
    values: Seq<M>,
    n: nat,
) -> bool {
    &&& values.len() == constructors.len()
    &&& n <= constructors.len()
    &&& forall|i: int|
        0 <= i < n ==> {
            &&& consumes(#[trigger] reads[i]) == writing::takes_bytes(constructors[i]->0)
            &&& if consumes(reads[i]) {
                field_reads_back(readers[i], pieces[i], values[i])
            } else {
                fixed[i] == values[i]
            }
        }
}

proof fn lemma_fields_read_back<M>(
    constructors: Seq<Option<FieldConstructor>>,
    reads: Seq<FieldRead>,
    readers: Seq<FieldReader<M>>,
    fixed: Seq<M>,
    pieces: Seq<Seq<Piece>>,
    values: Seq<M>,
    n: nat,
    data: Seq<u8>,
)
    requires
        first_read_back(constructors, reads, readers, fixed, pieces, values, n),
        layout::take_pieces(
            written_pieces(writing::written(constructors.take(n as int)), pieces),
            data,
        ) is Some,
    ensures
        read_fields(reads, readers, fixed, n, data) == (
            Ok::<Seq<M>, Error>(values.take(n as int)),
            layout::take_pieces(
                written_pieces(writing::written(constructors.take(n as int)), pieces),
                data,
            )->0,
        ),
    decreases n,
{
    if n > 0 {
        let m = (n - 1) as nat;
        let now = constructors.take(n as int);
        let was = constructors.take(m as int);
        assert(now.drop_last() =~= was);
        assert(values.take(n as int) =~= values.take(m as int).push(values[m as int]));
        let pw = written_pieces(writing::written(was), pieces);
        assert(consumes(reads[m as int]) == writing::takes_bytes(constructors[m as int]->0));
        if consumes(reads[m as int]) {
            assert(writing::written(now).drop_last() =~= writing::written(was));
            layout::lemma_take_append(pw, pieces[m as int], data);
        }
        lemma_fields_read_back(constructors, reads, readers, fixed, pieces, values, m, data);
    } else {
        assert(constructors.take(0) =~= Seq::empty());
        assert(values.take(0) =~= Seq::empty());
    }
}

/// What a derived writer writes for a list of fields, the derived reader reads
/// back, field by field.
pub proof fn law_derived_fields_read_back<M>(
    constructors: Seq<Option<FieldConstructor>>,
    readers: Seq<FieldReader<M>>,
    fixed: Seq<M>,
    pieces: Seq<Seq<Piece>>,
    values: Seq<M>,
    data: Seq<u8>,
)
    requires
        fields_read_back(constructors, readers, fixed, pieces, values),
        layout::take_pieces(
            written_pieces(writing::written(constructors), pieces),
            data,
        ) is Some,
    ensures
        read_fields(
            reading::field_reads(constructors, false),
            readers,
            fixed,
            constructors.len(),
            data,
        ) == (
            Ok::<Seq<M>, Error>(values),
            layout::take_pieces(
                written_pieces(writing::written(constructors), pieces),
                data,
            )->0,
        ),
{
    let n = constructors.len();
    let reads = reading::field_reads(constructors, false);
    assert(constructors.take(n as int) =~= constructors);
    assert(values.take(n as int) =~= values);
    lemma_fields_read_back(constructors, reads, readers, fixed, pieces, values, n, data);
}

/// A reader that gives all its data to one field finds `value` where the data is
/// `pieces` and, where there is one, exactly `tail` behind them.
pub open spec fn rest_reads_back<M>(
    reader: FieldReader<M>,
    pieces: Seq<Piece>,
    tail: Option<Seq<u8>>,
    value: M,
) -> bool {
    forall|data: Seq<u8>|
        #[trigger] layout::takes_rest(pieces, tail, data) ==> reader(data).0 == Ok::<M, Error>(
            value,
        )
}

/// Whether `values` are field values that a derived implementation keeps where all
/// the data is for them: as in [`fields_read_back`], but a last field that is given
/// all that is left reads back from `last_pieces` and `last_tail`.
pub open spec fn fields_read_back_rest<M>(
    constructors: Seq<Option<FieldConstructor>>,
    readers: Seq<FieldReader<M>>,
    fixed: Seq<M>,
    pieces: Seq<Seq<Piece>>,
    last_pieces: Seq<Piece>,
    last_tail: Option<Seq<u8>>,
    values: Seq<M>,
) -> bool {
    &&& values.len() == constructors.len()
    &&& forall|i: int|
        0 <= i < constructors.len() ==> if !writing::takes_bytes(#[trigger] constructors[i]->0) {
            fixed[i] == values[i]
        } else if writing::gives_rest(constructors) && i + 1 == constructors.len() {
            rest_reads_back(readers[i], last_pieces, last_tail, values[i])
        } else {
            field_reads_back(readers[i], pieces[i], values[i])
        }
}

/// The pieces that a derived `write_take_rest_to` writes for a list of fields.
pub open spec fn rest_pieces(
    constructors: Seq<Option<FieldConstructor>>,
    pieces: Seq<Seq<Piece>>,
    last_pieces: Seq<Piece>,
) -> Seq<Piece> {
    if writing::gives_rest(constructors) {
        written_pieces(writing::written(constructors.drop_last()), pieces) + last_pieces
    } else {
        written_pieces(writing::written(constructors), pieces)
    }
}

/// The bytes that a derived `write_take_rest_to` writes behind the pieces, for a
/// reader that takes all that is left.
pub open spec fn rest_tail(
    constructors: Seq<Option<FieldConstructor>>,
    last_tail: Option<Seq<u8>>,
) -> Option<Seq<u8>> {
    if writing::gives_rest(constructors) {
        last_tail
    } else {
        None
    }
}

pub proof fn lemma_rest_read_back<M>(
    constructors: Seq<Option<FieldConstructor>>,
    readers: Seq<FieldReader<M>>,
    fixed: Seq<M>,
    pieces: Seq<Seq<Piece>>,
    last_pieces: Seq<Piece>,
    last_tail: Option<Seq<u8>>,
    values: Seq<M>,
    data: Seq<u8>,
)
    requires
        input::all_valid(constructors),
        fields_read_back_rest(
            constructors,
            readers,
            fixed,
            pieces,
            last_pieces,
            last_tail,
            values,
        ),
        layout::takes_rest(
            rest_pieces(constructors, pieces, last_pieces),
            rest_tail(constructors, last_tail),
            data,
        ),
    ensures
        read_fields(
            reading::field_reads(constructors, true),
            readers,
            fixed,
            constructors.len(),
            data,
        ).0 == Ok::<Seq<M>, Error>(values),
{
    let n = constructors.len();
    let reads = reading::field_reads(constructors, true);
    if n > 0 {
        law_rest_is_written_where_it_is_taken(constructors);
    }
    if writing::gives_rest(constructors) {
        let m = (n - 1) as nat;
        let earlier = written_pieces(writing::written(constructors.drop_last()), pieces);
        assert(constructors.take(m as int) =~= constructors.drop_last());
        layout::lemma_take_append(earlier, last_pieces, data);
        assert forall|i: int| 0 <= i < m implies {
            &&& consumes(#[trigger] reads[i]) == writing::takes_bytes(constructors[i]->0)
            &&& if consumes(reads[i]) {
                field_reads_back(readers[i], pieces[i], values[i])
            } else {
                fixed[i] == values[i]
            }
        } by {
            assert(writing::takes_bytes(constructors[i]->0) || !writing::takes_bytes(
                constructors[i]->0,
            ));
        }
        lemma_fields_read_back(constructors, reads, readers, fixed, pieces, values, m, data);
        let rest = layout::take_pieces(earlier, data)->0;
        assert(writing::takes_bytes(constructors[m as int]->0));
        assert(layout::takes_rest(last_pieces, last_tail, rest));
        assert(readers[m as int](rest).0 == Ok::<M, Error>(values[m as int]));
        assert(values.take(m as int).push(values[m as int]) =~= values);
    } else {
        assert(constructors.take(n as int) =~= constructors);
        assert(values.take(n as int) =~= values);
        assert forall|i: int| 0 <= i < n implies {
            &&& consumes(#[trigger] reads[i]) == writing::takes_bytes(constructors[i]->0)
            &&& if consumes(reads[i]) {
                field_reads_back(readers[i], pieces[i], values[i])
            } else {
                fixed[i] == values[i]
            }
        } by {
            assert(writing::takes_bytes(constructors[i]->0) || !writing::takes_bytes(
                constructors[i]->0,
            ));
        }
        lemma_fields_read_back(constructors, reads, readers, fixed, pieces, values, n, data);
    }
}

/// What a derived `write_take_rest_to` writes for a list of fields into a buffer of
/// their own, as for an element of a collection, the derived `arbitrary_take_rest`
/// reads back. The last reader is that of `arbitrary_take_rest` where the last field
/// is given all that is left.
pub proof fn law_derived_fields_read_back_rest<M>(
    constructors: Seq<Option<FieldConstructor>>,
    readers: Seq<FieldReader<M>>,
    fixed: Seq<M>,
    pieces: Seq<Seq<Piece>>,
    last_pieces: Seq<Piece>,
    last_tail: Option<Seq<u8>>,
    values: Seq<M>,
)
    requires
        input::all_valid(constructors),
        fields_read_back_rest(
            constructors,
            readers,
            fixed,
            pieces,
            last_pieces,
            last_tail,
            values,
        ),
        layout::fits_rest(
            rest_pieces(constructors, pieces, last_pieces),
            rest_tail(constructors, last_tail),
        ),
    ensures
        read_fields(
            reading::field_reads(constructors, true),
            readers,
            fixed,
            constructors.len(),
            layout::laid_out_rest(
                rest_pieces(constructors, pieces, last_pieces),
                rest_tail(constructors, last_tail),
            ),
        ).0 == Ok::<Seq<M>, Error>(values),
{
    let p = rest_pieces(constructors, pieces, last_pieces);
    let t = rest_tail(constructors, last_tail);
    layout::law_rest_aligns(p, t);
    lemma_rest_read_back(
        constructors,
        readers,
        fixed,
        pieces,
        last_pieces,
        last_tail,
        values,
        layout::laid_out_rest(p, t),
    );
}

/// What a derived reader of an enum makes of the data: a selector chooses among the
/// variants that are not skipped, then the fields of that variant are read, with
/// `rest` as in `arbitrary_take_rest`. Gives the variant's position and its fields.
pub open spec fn read_variant<M>(
    variants: Seq<Variant>,
    readers: Seq<Seq<FieldReader<M>>>,
    fixed: Seq<Seq<M>>,
    data: Seq<u8>,
    depth: u8,
    rest: bool,
) -> (Result<(nat, Seq<M>), Error>, Seq<u8>) {
    match u32::read(data, depth) {
        (Err(e), left) => (Err(e), left),
        (Ok(s), left) => {
            let ks = input::kept(variants);
            let v = ks[selector::chosen(s as int, ks.len() as int)];
            let cs = variants[v as int].fields.constructors();
            let (values, left) = read_fields(
                reading::field_reads(cs, rest),
                readers[v as int],
                fixed[v as int],
                cs.len(),
                left,
            );
            match values {
                Err(e) => (Err(e), left),
                Ok(values) => (Ok((v, values)), left),
            }
        },
    }
}

/// The pieces of the selector that a derived writer writes for the variant at place
/// `k` among those that are not skipped.
pub open spec fn selector_pieces(variants: Seq<Variant>, k: int, depth: u8) -> Seq<Piece> {
    (selector::selector(k, input::kept(variants).len() as int) as u32).pieces(depth)
}

/// The pieces that a derived writer writes for the variant at place `k` among those
/// that are not skipped.
pub open spec fn variant_pieces(
    variants: Seq<Variant>,
    pieces: Seq<Seq<Piece>>,
    k: int,
    depth: u8,
) -> Seq<Piece> {
    selector_pieces(variants, k, depth) + written_pieces(
        writing::written(variants[input::kept(variants)[k] as int].fields.constructors()),
        pieces,
    )
}

/// The same for a derived `write_take_rest_to`.
pub open spec fn variant_rest_pieces(
    variants: Seq<Variant>,
    pieces: Seq<Seq<Piece>>,
    last_pieces: Seq<Piece>,
    k: int,
    depth: u8,
) -> Seq<Piece> {
    selector_pieces(variants, k, depth) + rest_pieces(
        variants[input::kept(variants)[k] as int].fields.constructors(),
        pieces,
        last_pieces,
    )
}

/// The written selector is read back, and chooses the variant.
proof fn lemma_selector_reads_back(
    variants: Seq<Variant>,
    k: int,
    fields: Seq<Piece>,
    data: Seq<u8>,
    depth: u8,
)
    requires
        writing::writable(variants),
        0 <= k < input::kept(variants).len(),
        layout::take_pieces(selector_pieces(variants, k, depth) + fields, data) is Some,
    ensures
        ({
            let left = layout::take_pieces(selector_pieces(variants, k, depth), data)->0;
            let s = selector::selector(k, input::kept(variants).len() as int) as u32;
            &&& u32::read(data, depth) == (Ok::<u32, Error>(s), left)
            &&& selector::chosen(s as int, input::kept(variants).len() as int) == k
            &&& layout::take_pieces(selector_pieces(variants, k, depth) + fields, data)
                == layout::take_pieces(fields, left)
        }),
{
    let s = selector::selector(k, input::kept(variants).len() as int) as u32;
    selector::law_selector_chooses_its_variant(k, input::kept(variants).len() as int);
    layout::lemma_take_append(s.pieces(depth), fields, data);
    s.reads_back(depth, data);
}

/// What a derived writer writes for an enum, the derived reader reads back: the
/// same variant, with the same fields.
pub proof fn law_derived_variant_reads_back<M>(
    variants: Seq<Variant>,
    readers: Seq<Seq<FieldReader<M>>>,
    fixed: Seq<Seq<M>>,
    pieces: Seq<Seq<Piece>>,
    values: Seq<M>,
    k: int,
    data: Seq<u8>,
    depth: u8,
)
    requires
        writing::writable(variants),
        0 <= k < input::kept(variants).len(),
        fields_read_back(
            variants[input::kept(variants)[k] as int].fields.constructors(),
            readers[input::kept(variants)[k] as int],
            fixed[input::kept(variants)[k] as int],
            pieces,
            values,
        ),
        layout::take_pieces(variant_pieces(variants, pieces, k, depth), data) is Some,
    ensures
        read_variant(variants, readers, fixed, data, depth, false) == (
            Ok::<(nat, Seq<M>), Error>((input::kept(variants)[k], values)),
            layout::take_pieces(variant_pieces(variants, pieces, k, depth), data)->0,
        ),
{
    let v = input::kept(variants)[k] as int;
    let cs = variants[v].fields.constructors();
    lemma_selector_reads_back(
        variants,
        k,
        written_pieces(writing::written(cs), pieces),
        data,
        depth,
    );
    let left = layout::take_pieces(selector_pieces(variants, k, depth), data)->0;
    law_derived_fields_read_back(cs, readers[v], fixed[v], pieces, values, left);
}

/// What a derived `write_take_rest_to` writes for an enum into a buffer of its own,
/// as for an element of a collection, the derived `arbitrary_take_rest` reads back:
/// the same variant, with the same fields.
pub proof fn law_derived_variant_reads_back_rest<M>(
    variants: Seq<Variant>,
    readers: Seq<Seq<FieldReader<M>>>,
    fixed: Seq<Seq<M>>,
    pieces: Seq<Seq<Piece>>,
    last_pieces: Seq<Piece>,
    last_tail: Option<Seq<u8>>,
    values: Seq<M>,
    k: int,
    depth: u8,
)
    requires
        writing::writable(variants),
        0 <= k < input::kept(variants).len(),
        fields_read_back_rest(
            variants[input::kept(variants)[k] as int].fields.constructors(),
            readers[input::kept(variants)[k] as int],
            fixed[input::kept(variants)[k] as int],
            pieces,
            last_pieces,
            last_tail,
            values,
        ),
        layout::fits_rest(
            variant_rest_pieces(variants, pieces, last_pieces, k, depth),
            rest_tail(
                variants[input::kept(variants)[k] as int].fields.constructors(),
                last_tail,
            ),
        ),
    ensures
        read_variant(
            variants,
            readers,
            fixed,
            layout::laid_out_rest(
                variant_rest_pieces(variants, pieces, last_pieces, k, depth),
                rest_tail(
                    variants[input::kept(variants)[k] as int].fields.constructors(),
                    last_tail,
                ),
            ),
            depth,
            true,
        ).0 == Ok::<(nat, Seq<M>), Error>((input::kept(variants)[k], values)),
{
    let v = input::kept(variants)[k] as int;
    let cs = variants[v].fields.constructors();
    let p = variant_rest_pieces(variants, pieces, last_pieces, k, depth);
    let t = rest_tail(cs, last_tail);
    let data = layout::laid_out_rest(p, t);
    input::lemma_kept(variants);
    assert(!variants[v].skipped);
    layout::law_rest_aligns(p, t);
    lemma_selector_reads_back(
        variants,
        k,
        rest_pieces(cs, pieces, last_pieces),
        data,
        depth,
    );
    let left = layout::take_pieces(selector_pieces(variants, k, depth), data)->0;
    lemma_rest_read_back(
        cs,
        readers[v],
        fixed[v],
        pieces,
        last_pieces,
        last_tail,
        values,
        left,
    );
}

} // verus!
