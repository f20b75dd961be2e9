//! Command-line flags and configuration defaults.
use vstd::prelude::*;

verus! {

/// The value following the first occurrence of `flag` in `args`, if `flag`
/// occurs and something follows it.
pub open spec fn flag_value(args: Seq<Seq<char>>, flag: Seq<char>) -> Option<Seq<char>>
    decreases args.len(),
{
    if args.len() == 0 {
        None
    } else if args[0] == flag {
        if args.len() > 1 { Some(args[1]) } else { None }
    } else {
        flag_value(args.drop_first(), flag)
    }
}

/// The value given to `flag` on the command line.
pub fn parse_flag(args: &[String], flag: &str) -> (value: Option<String>)
    ensures
        value matches Some(v) ==> flag_value(args.deep_view(), flag@) == Some(v@),
        value is None ==> flag_value(args.deep_view(), flag@) is None,
{
    let ghost all = args.deep_view();
    let n = args.len();
    let mut i: usize = 0;
    assert(all.subrange(0, n as int) =~= all);
    while i < n
        invariant
            n == args@.len(),
            all == args.deep_view(),
            i <= n,
            flag_value(all, flag@) == flag_value(all.subrange(i as int, n as int), flag@),
        decreases n - i,
    {
        let ghost rest = all.subrange(i as int, n as int);
        assert(rest[0] == args@[i as int]@);
        if crate::text::chars_eq(crate::text::chars_of(args[i].as_str()).as_slice(), crate::text::chars_of(flag).as_slice()) {
            if i + 1 < n {
                assert(rest[1] == args@[i + 1]@);
                return Some(args[i + 1].clone());
            }
            return None;
        }
        assert(rest.drop_first() =~= all.subrange(i + 1, n as int));
        i = i + 1;
    }
    None
}

/// The default model path: none, to be resolved from the installed models.
pub fn default_model() -> (model: String)
    ensures
        model@ == Seq::<char>::empty(),
{
    String::new()
}

/// The default speech-to-text engine.
pub fn default_engine() -> (engine: String)
    ensures
        engine@ == "whisper"@,
{
    String::from_str("whisper")
}

} // verus!
