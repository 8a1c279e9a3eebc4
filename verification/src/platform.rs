//! The flags of the engine, which are set once for the whole process.
use crate::errors::{plain, raise, Raised, RubyClass, RubyError};
use crate::text::{
    chars_of, is_space, law_trim_takes_off_the_space_around, string_between, trim, trim_bounds,
};
use vstd::prelude::*;

verus! {

broadcast use vstd::string::group_string_axioms;

/// One flag: a name alone, or a name with a value.
#[derive(Debug)]
pub struct Flag {
    pub name: String,
    pub value: Option<String>,
}

/// A flag as the engine reads it, after a blank.
pub open spec fn flag_text(f: Flag) -> Seq<char> {
    match f.value {
        Some(v) => " --"@ + f.name@ + "="@ + v@,
        None => " --"@ + f.name@,
    }
}

/// Flags one after the other.
pub open spec fn flags_text(flags: Seq<Flag>) -> Seq<char>
    decreases flags.len(),
{
    if flags.len() == 0 {
        Seq::empty()
    } else {
        flags_text(flags.drop_last()) + flag_text(flags.last())
    }
}

/// What setting flags comes to.
pub open spec fn flags_outcome(initialized: bool, first: Seq<char>, flags: Seq<Flag>) -> Result<
    Seq<char>,
    Raised,
> {
    if initialized {
        Err(
            plain(
                RubyClass::PlatformAlreadyInitialized,
                "the V8 platform is already initialized; set flags before the first "@ + first,
            ),
        )
    } else {
        Ok(trim(flags_text(flags)))
    }
}

/// Flags are handed over exactly as long as the engine is not initialised, and
/// refused from then on whatever they are.
pub proof fn law_flags_are_set_before_the_engine(
    first: Seq<char>,
    flags: Seq<Flag>,
    others: Seq<Flag>,
)
    ensures
        flags_outcome(false, first, flags) == Ok::<Seq<char>, Raised>(trim(flags_text(flags))),
        flags_outcome(true, first, flags) == flags_outcome(true, first, others),
        flags_outcome(true, first, flags) matches Err(e) && e.class
            == RubyClass::PlatformAlreadyInitialized && e.message
            == "the V8 platform is already initialized; set flags before the first "@ + first,
{
}

/// The text of flags as it is handed to the engine. Flags are refused once the
/// engine is initialised, which the constructor named by `first` does.
pub fn platform_set_flags(initialized: bool, first: &str, flags: &Vec<Flag>) -> (r: Result<
    String,
    RubyError,
>)
    ensures
        match (r, flags_outcome(initialized, first@, flags@)) {
            (Ok(t), Ok(want)) => t@ == want,
            (Err(e), Err(want)) => e@ == want,
            _ => false,
        },
{
    if initialized {
        let mut m =
            "the V8 platform is already initialized; set flags before the first ".to_string();
        m.append(first);
        return Err(raise(RubyClass::PlatformAlreadyInitialized, m.as_str()));
    }
    let mut out: String = String::new();
    let mut i: usize = 0;
    assert(flags@.take(0) =~= Seq::empty());
    assert(out@ =~= Seq::empty());
    while i < flags.len()
        invariant
            i <= flags@.len(),
            out@ == flags_text(flags@.take(i as int)),
        decreases flags.len() - i,
    {
        let ghost before = out@;
        assert(flags@.take(i + 1).drop_last() =~= flags@.take(i as int));
        out.append(" --");
        out.append(flags[i].name.as_str());
        match &flags[i].value {
            Some(v) => {
                out.append("=");
                out.append(v.as_str());
            },
            None => {},
        }
        assert(out@ =~= before + flag_text(flags@[i as int]));
        i = i + 1;
    }
    assert(flags@.take(i as int) =~= flags@);
    let cs: Vec<char> = chars_of(out.as_str());
    let (from, to): (usize, usize) = trim_bounds(&cs, 0, cs.len());
    assert(cs@.subrange(0, cs@.len() as int) =~= out@);
    Ok(string_between(&cs, from, to))
}

/// Flags are written in the order they are given, each for itself.
pub proof fn law_flags_are_written_in_order(a: Seq<Flag>, b: Seq<Flag>, f: Flag)
    ensures
        flags_text(a + b) == flags_text(a) + flags_text(b),
        flags_text(seq![f]) == flag_text(f),
    decreases b.len(),
{
    assert(seq![f].drop_last() =~= Seq::empty());
    assert(flags_text(seq![f].drop_last()) =~= Seq::empty());
    assert(flags_text(seq![f]) =~= flag_text(f));
    if b.len() == 0 {
        assert(a + b =~= a);
        assert(flags_text(a) + flags_text(b) =~= flags_text(a));
    } else {
        law_flags_are_written_in_order(a, b.drop_last(), f);
        assert((a + b).drop_last() =~= a + b.drop_last());
        assert(flags_text(a + b) =~= flags_text(a) + flags_text(b));
    }
}

/// A single flag is handed to the engine as `--name`, or as `--name=value` where it
/// has a value, without white space around it.
pub proof fn law_single_flag_is_handed_over(f: Flag)
    requires
        f.name@.len() > 0 && !is_space(f.name@.last()),
        f.value matches Some(v) ==> v@.len() > 0 && !is_space(v@.last()),
    ensures
        trim(flags_text(seq![f])) == match f.value {
            Some(v) => "--"@ + f.name@ + "="@ + v@,
            None => "--"@ + f.name@,
        },
{
    reveal_strlit(" --");
    reveal_strlit("--");
    law_flags_are_written_in_order(Seq::empty(), Seq::empty(), f);
    let text = match f.value {
        Some(v) => "--"@ + f.name@ + "="@ + v@,
        None => "--"@ + f.name@,
    };
    assert(" --"@ =~= seq![' '] + "--"@);
    assert(flag_text(f) =~= seq![' '] + text + Seq::<char>::empty());
    assert(text[0] == '-');
    match f.value {
        Some(v) => assert(text.last() == v@.last()),
        None => assert(text.last() == f.name@.last()),
    }
    law_trim_takes_off_the_space_around(seq![' '], text, Seq::empty());
}

} // verus!
