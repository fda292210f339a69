//! The admin panel's small decision logic: the root redirect, checkbox
//! decoding, form-id parsing, and turning a dragged row order into
//! ordering rows.

use vstd::prelude::*;

verus! {

use vstd::string::{StrSliceExecFns, StringExecFns};

use crate::models::{Reorder, Stri64};

/// Where the admin panel's root redirects: the questions page.
pub fn index() -> (r: String)
    ensures
        r@ == "/questions"@,
{
    "/questions".to_owned()
}

/// What a form checkbox decodes to: an absent field is `None`, the value
/// `"on"` is `Some(true)`, anything else is malformed.
pub open spec fn spec_checkbox(value: Option<Seq<char>>) -> Result<Option<bool>, ()> {
    match value {
        None => Ok(None),
        Some(t) => if t == "on"@ {
            Ok(Some(true))
        } else {
            Err(())
        },
    }
}

/// Decodes a form checkbox field.
pub fn checkbox_value(value: Option<&String>) -> (r: Result<Option<bool>, ()>)
    ensures
        r == spec_checkbox(
            match value {
                Some(t) => Some(t@),
                None => None,
            },
        ),
{
    match value {
        None => Ok(None),
        Some(t) => {
            let on = "on".to_owned();
            if *t == on {
                Ok(Some(true))
            } else {
                Err(())
            }
        },
    }
}

/// True when `c` is a decimal digit.
pub open spec fn is_digit(c: char) -> bool {
    48 <= c as int <= 57
}

/// True when every character is a decimal digit.
pub open spec fn all_digits(s: Seq<char>) -> bool {
    forall|i: int| 0 <= i < s.len() ==> is_digit(#[trigger] s[i])
}

/// The number a digit string spells.
pub open spec fn digits_value(s: Seq<char>) -> int
    decreases s.len(),
{
    if s.len() == 0 {
        0
    } else {
        digits_value(s.drop_last()) * 10 + (s.last() as int - 48)
    }
}

/// What a decimal string parses to as an `i64`: an optional sign, then
/// at least one digit, nothing else, and a value within range.
pub open spec fn spec_parse_i64(s: Seq<char>) -> Option<i64> {
    let negative = s.len() > 0 && s[0] == '-';
    let digits = if s.len() > 0 && (s[0] == '-' || s[0] == '+') {
        s.drop_first()
    } else {
        s
    };
    if digits.len() == 0 || !all_digits(digits) {
        None
    } else {
        let v = if negative {
            -digits_value(digits)
        } else {
            digits_value(digits)
        };
        if i64::MIN <= v <= i64::MAX {
            Some(v as i64)
        } else {
            None
        }
    }
}

/// A digit string spells a non-negative number.
proof fn lemma_digits_value_nonneg(s: Seq<char>)
    requires
        all_digits(s),
    ensures
        digits_value(s) >= 0,
    decreases s.len(),
{
    if s.len() > 0 {
        assert(all_digits(s.drop_last()));
        lemma_digits_value_nonneg(s.drop_last());
    }
}

/// Extending a digit string never shrinks its value.
proof fn lemma_digits_value_prefix(s: Seq<char>, j: int)
    requires
        all_digits(s),
        0 <= j <= s.len(),
    ensures
        digits_value(s.take(j)) <= digits_value(s),
    decreases s.len() - j,
{
    if j == s.len() {
        assert(s.take(j) =~= s);
    } else {
        assert(s.take(j + 1).drop_last() =~= s.take(j));
        assert(all_digits(s.take(j)));
        lemma_digits_value_nonneg(s.take(j));
        assert(digits_value(s.take(j + 1)) == digits_value(s.take(j)) * 10 + (s[j] as int - 48));
        lemma_digits_value_prefix(s, j + 1);
    }
}

/// Parses a decimal string as an `i64`: `None` exactly on a malformed
/// string or a value out of range.
pub fn parse_i64(s: &str) -> (r: Option<i64>)
    ensures
        r == spec_parse_i64(s@),
{
    let n = s.unicode_len();
    if n == 0 {
        return None;
    }
    let c0 = s.get_char(0);
    let negative = c0 == '-';
    let skip: usize = if c0 == '-' || c0 == '+' {
        1
    } else {
        0
    };
    if n == skip {
        return None;
    }
    let ghost digits = if skip == 1 {
        s@.drop_first()
    } else {
        s@
    };
    let mut acc: i64 = 0;
    let mut i: usize = skip;
    while i < n
        invariant
            n == s@.len(),
            n > 0,
            skip <= i <= n,
            skip == 0 || skip == 1,
            negative == (s@[0] == '-'),
            (skip == 1) <==> (s@[0] == '-' || s@[0] == '+'),
            digits == if skip == 1 {
                s@.drop_first()
            } else {
                s@
            },
            all_digits(s@.subrange(skip as int, i as int)),
            acc == -digits_value(s@.subrange(skip as int, i as int)),
        decreases n - i,
    {
        let c = s.get_char(i);
        let u = c as u32;
        if u < 48 || u > 57 {
            proof {
                assert(!is_digit(s@[i as int]));
                assert(digits[i as int - skip as int] == s@[i as int]);
                assert(!all_digits(digits));
            }
            return None;
        }
        let d = (u - 48) as i64;
        let next = match acc.checked_mul(10) {
            Some(x) => x.checked_sub(d),
            None => None,
        };
        match next {
            Some(x) => {
                acc = x;
            },
            None => {
                proof {
                    lemma_digits_value_nonneg(s@.subrange(skip as int, i as int));
                    assert(s@.subrange(skip as int, i as int + 1).drop_last() =~= s@.subrange(
                        skip as int,
                        i as int,
                    ));
                    assert(s@.subrange(skip as int, i as int + 1).last() == s@[i as int]);
                    assert(digits_value(s@.subrange(skip as int, i as int + 1)) == (-acc) * 10 + (
                    s@[i as int] as int - 48));
                    assert(digits_value(s@.subrange(skip as int, i as int + 1))
                        > 0x7fff_ffff_ffff_ffff);
                    if all_digits(digits) {
                        assert(s@.subrange(skip as int, i as int + 1) =~= digits.take(
                            i as int + 1 - skip as int,
                        ));
                        lemma_digits_value_prefix(digits, i as int + 1 - skip as int);
                    }
                }
                return None;
            },
        }
        i = i + 1;
        proof {
            assert(s@.subrange(skip as int, i as int).drop_last() =~= s@.subrange(
                skip as int,
                i as int - 1,
            ));
            assert(all_digits(s@.subrange(skip as int, i as int)));
        }
    }
    proof {
        assert(s@.subrange(skip as int, n as int) =~= digits);
    }
    if negative {
        Some(acc)
    } else {
        if acc == i64::MIN {
            return None;
        }
        Some(-acc)
    }
}

/// Parses a form id field into the wrapper the admin routes use.
pub fn stri64_from_string(value: &String) -> (r: Result<Stri64, ()>)
    ensures
        r matches Ok(v) ==> spec_parse_i64(value@) == Some(v.0),
        r is Err <==> spec_parse_i64(value@) is None,
{
    match parse_i64(value.as_str()) {
        Some(v) => Ok(Stri64(v)),
        None => Err(()),
    }
}

/// Turns the dragged row order of the reordering page into ordering
/// rows: the row at position `k` receives ordering `k`.
pub fn reorder_from_ids(row_ids: &Vec<Stri64>) -> (r: Vec<Reorder>)
    requires
        row_ids@.len() <= i64::MAX,
    ensures
        r@.len() == row_ids@.len(),
        forall|k: int|
            0 <= k < r@.len() ==> #[trigger] r@[k] == (Reorder {
                id: row_ids@[k].0,
                ordering: k as i64,
            }),
{
    let mut out: Vec<Reorder> = Vec::new();
    let mut k: usize = 0;
    while k < row_ids.len()
        invariant
            row_ids@.len() <= i64::MAX,
            k <= row_ids@.len(),
            out@.len() == k,
            forall|j: int|
                0 <= j < k ==> #[trigger] out@[j] == (Reorder {
                    id: row_ids@[j].0,
                    ordering: j as i64,
                }),
        decreases row_ids@.len() - k,
    {
        out.push(Reorder { id: row_ids[k].0, ordering: k as i64 });
        k = k + 1;
    }
    out
}


use crate::models::Question;

/// `atts` with its first occurrence of `name` removed, if any.
pub open spec fn remove_first_attachment(atts: Seq<Seq<char>>, name: Seq<char>) -> Seq<Seq<char>>
    decreases atts.len(),
{
    if atts.len() == 0 {
        atts
    } else if atts.first() == name {
        atts.drop_first()
    } else {
        seq![atts.first()] + remove_first_attachment(atts.drop_first(), name)
    }
}

/// Attaches a file name to a question's attachment list.
pub fn add_attachment(question: &mut Question, file_name: String)
    ensures
        final(question)@.attachments == old(question)@.attachments.push(file_name@),
        final(question)@.id == old(question)@.id,
        final(question)@.category == old(question)@.category,
        final(question)@.question == old(question)@.question,
        final(question)@.answer == old(question)@.answer,
        final(question)@.hidden == old(question)@.hidden,
        final(question)@.ordering == old(question)@.ordering,
{
    let ghost fname = file_name@;
    question.attachments.push(file_name);
    proof {
        assert(question@.attachments =~= old(question)@.attachments.push(fname));
    }
}

/// Detaches one occurrence of a file name from a question's attachment
/// list; a name not on the list leaves it unchanged.
pub fn delete_attachment(question: &mut Question, file_name: &String)
    ensures
        final(question)@.attachments == remove_first_attachment(
            old(question)@.attachments,
            file_name@,
        ),
        final(question)@.id == old(question)@.id,
        final(question)@.category == old(question)@.category,
        final(question)@.question == old(question)@.question,
        final(question)@.answer == old(question)@.answer,
        final(question)@.hidden == old(question)@.hidden,
        final(question)@.ordering == old(question)@.ordering,
{
    let ghost atts = question@.attachments;
    let mut out: Vec<String> = Vec::new();
    let mut i: usize = 0;
    let mut removed = false;
    let ghost mut split: int = 0;
    while i < question.attachments.len()
        invariant
            atts == question@.attachments,
            i <= atts.len(),
            !removed ==> {
                &&& out@.len() == i
                &&& out.deep_view() =~= atts.take(i as int)
                &&& forall|k: int| 0 <= k < i ==> #[trigger] atts[k] != file_name@
            },
            removed ==> {
                &&& 0 <= split < i
                &&& out@.len() == i - 1
                &&& atts[split] == file_name@
                &&& forall|k: int| 0 <= k < split ==> #[trigger] atts[k] != file_name@
                &&& out.deep_view() =~= atts.take(split) + atts.subrange(split + 1, i as int)
            },
        decreases atts.len() - i,
    {
        if !removed && question.attachments[i] == *file_name {
            removed = true;
            proof {
                split = i as int;
                assert(atts.subrange(split + 1, split + 1) =~= Seq::<Seq<char>>::empty());
                assert(out.deep_view() =~= atts.take(split) + atts.subrange(split + 1, split + 1));
            }
        } else {
            let ghost prev = out.deep_view();
            out.push(question.attachments[i].clone());
            proof {
                assert(out.deep_view() =~= prev.push(atts[i as int]));
                if removed {
                    assert(atts.subrange(split + 1, i as int + 1) =~= atts.subrange(
                        split + 1,
                        i as int,
                    ).push(atts[i as int]));
                    assert((atts.take(split) + atts.subrange(split + 1, i as int)).push(
                        atts[i as int],
                    ) =~= atts.take(split) + atts.subrange(split + 1, i as int + 1));
                    assert(out.deep_view() =~= atts.take(split) + atts.subrange(
                        split + 1,
                        i as int + 1,
                    ));
                } else {
                    assert(out.deep_view() =~= atts.take(i as int + 1));
                }
            }
        }
        i = i + 1;
    }
    proof {
        if removed {
            lemma_remove_first_attachment_split(atts, file_name@, split);
            assert(atts.subrange(split + 1, atts.len() as int) =~= atts.skip(split + 1));
        } else {
            assert(atts.take(atts.len() as int) =~= atts);
            lemma_remove_first_attachment_absent(atts, file_name@);
        }
    }
    question.attachments = out;
}

/// Removing at the found split: the prefix holds no occurrence, position
/// `i` holds one, so the removal drops exactly that position.
proof fn lemma_remove_first_attachment_split(atts: Seq<Seq<char>>, name: Seq<char>, i: int)
    requires
        0 <= i < atts.len(),
        forall|k: int| 0 <= k < i ==> #[trigger] atts[k] != name,
        atts[i] == name,
    ensures
        remove_first_attachment(atts, name) == atts.take(i) + atts.skip(i + 1),
    decreases i,
{
    if i == 0 {
        assert(remove_first_attachment(atts, name) =~= atts.take(0) + atts.skip(1));
    } else {
        lemma_remove_first_attachment_split(atts.drop_first(), name, i - 1);
        assert(atts.drop_first().take(i - 1) =~= atts.take(i).drop_first());
        assert(atts.drop_first().skip(i) =~= atts.skip(i + 1));
        assert(seq![atts.first()] + (atts.take(i).drop_first() + atts.skip(i + 1)) =~= atts.take(
            i,
        ) + atts.skip(i + 1));
    }
}

/// A name that never occurs leaves the list unchanged.
proof fn lemma_remove_first_attachment_absent(atts: Seq<Seq<char>>, name: Seq<char>)
    requires
        forall|k: int| 0 <= k < atts.len() ==> #[trigger] atts[k] != name,
    ensures
        remove_first_attachment(atts, name) == atts,
    decreases atts.len(),
{
    if atts.len() > 0 {
        lemma_remove_first_attachment_absent(atts.drop_first(), name);
        assert(seq![atts.first()] + atts.drop_first() =~= atts);
    }
}


/// What an edit form's attachment field decides: which file name the
/// record keeps, whether the upload is to be stored, and whether the old
/// file is to be removed.
#[derive(Debug)]
pub struct AttachmentUpdate {
    pub filename: Option<String>,
    pub store_upload: bool,
    pub delete_old: bool,
}

/// Mathematical view of an [`AttachmentUpdate`].
#[verifier::ext_equal]
pub ghost struct AttachmentUpdateV {
    pub filename: Option<Seq<char>>,
    pub store_upload: bool,
    pub delete_old: bool,
}

impl View for AttachmentUpdate {
    type V = AttachmentUpdateV;

    open spec fn view(&self) -> AttachmentUpdateV {
        AttachmentUpdateV {
            filename: match self.filename {
                Some(ref s) => Some(s@),
                None => None,
            },
            store_upload: self.store_upload,
            delete_old: self.delete_old,
        }
    }
}

/// The decision table of the edit form's attachment field: no upload
/// field, or one with no usable name, keeps the old attachment; a
/// non-empty named upload replaces it; an empty upload removes it.
pub open spec fn spec_resolve_attachment(
    upload: Option<(u64, Option<Seq<char>>)>,
    old_name: Option<Seq<char>>,
) -> AttachmentUpdateV {
    match upload {
        None => AttachmentUpdateV { filename: old_name, store_upload: false, delete_old: false },
        Some((len, name)) => {
            if len > 0 {
                match name {
                    Some(n) => AttachmentUpdateV {
                        filename: Some(n),
                        store_upload: true,
                        delete_old: false,
                    },
                    None => AttachmentUpdateV {
                        filename: old_name,
                        store_upload: false,
                        delete_old: false,
                    },
                }
            } else {
                AttachmentUpdateV {
                    filename: None,
                    store_upload: false,
                    delete_old: old_name is Some,
                }
            }
        },
    }
}

/// Decides what happens to a question's attachment on an edit-form
/// submission carrying an upload of the given size and name.
pub fn resolve_attachment_update(
    upload: Option<(u64, Option<String>)>,
    old_name: Option<String>,
) -> (r: AttachmentUpdate)
    ensures
        r@ == spec_resolve_attachment(
            match upload {
                Some((len, Some(ref n))) => Some((len, Some(n@))),
                Some((len, None)) => Some((len, None)),
                None => None,
            },
            match old_name {
                Some(ref s) => Some(s@),
                None => None,
            },
        ),
{
    match upload {
        None => AttachmentUpdate { filename: old_name, store_upload: false, delete_old: false },
        Some((len, name)) => {
            if len > 0 {
                match name {
                    Some(n) => AttachmentUpdate {
                        filename: Some(n),
                        store_upload: true,
                        delete_old: false,
                    },
                    None => AttachmentUpdate {
                        filename: old_name,
                        store_upload: false,
                        delete_old: false,
                    },
                }
            } else {
                let delete_old = old_name.is_some();
                AttachmentUpdate { filename: None, store_upload: false, delete_old }
            }
        },
    }
}

} // verus!
