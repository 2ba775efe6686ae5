use stickyimmix::error::{ErrorKind, RuntimeError};
use stickyimmix::memory::{Memory, Mutator, MutatorView};
use stickyimmix::printer::print;
use stickyimmix::rawarray::{default_array_growth, RawArray};
use stickyimmix::text::Text;

#[test]
fn text_empty_string() {
    let mut mem = Memory::new();

    struct Test {}
    impl Mutator for Test {
        type Input = ();
        type Output = ();

        fn run(
            &self,
            view: &mut MutatorView,
            _input: Self::Input,
        ) -> Result<Self::Output, RuntimeError> {
            let text = Text::new_empty();
            assert!(text.as_str(view) == "");

            Ok(())
        }
    }

    let test = Test {};
    mem.mutate(&test, ()).unwrap();
}

#[test]
fn text_from_static_str() {
    let mut mem = Memory::new();

    struct Test {}
    impl Mutator for Test {
        type Input = ();
        type Output = ();

        fn run(
            &self,
            view: &mut MutatorView,
            _input: Self::Input,
        ) -> Result<Self::Output, RuntimeError> {
            let expected = "\u{3053}\u{3093}\u{306b}\u{3061}\u{306f}";
            let text = Text::new_from_str(view, expected)?;
            let got = text.as_str(view);

            assert!(got == expected);

            Ok(())
        }
    }

    let test = Test {};
    mem.mutate(&test, ()).unwrap();
}

#[test]
fn value_from_string() {
    let mut mem = Memory::new();

    struct Test {}
    impl Mutator for Test {
        type Input = ();
        type Output = ();

        fn run(
            &self,
            view: &mut MutatorView,
            _input: Self::Input,
        ) -> Result<Self::Output, RuntimeError> {
            let input = String::from("\u{3053}\u{3093}\u{306b}\u{3061}\u{306f}");
            // the Value representation of the object is wrapped in quotes
            let expected = format!("\"{}\"", input);

            let text = Text::new_from_str(view, &input)?;
            let heap_text = view.alloc_tagged(text)?;

            let got = print(view, heap_text.value());

            assert!(got == expected);

            Ok(())
        }
    }

    let test = Test {};
    mem.mutate(&test, ()).unwrap();
}

#[test]
fn array_growth() {
    assert_eq!(default_array_growth(0).unwrap(), 8);
    assert_eq!(default_array_growth(8).unwrap(), 12);
    assert_eq!(default_array_growth(9).unwrap(), 13);
    assert_eq!(default_array_growth(1).unwrap(), 1);
    let e = default_array_growth(u32::MAX).unwrap_err();
    assert_eq!(*e.error_kind(), ErrorKind::BadAllocationRequest);
    assert_eq!(e.message(), "An invalid memory size allocation was requested!");
}

#[test]
fn raw_array_with_capacity() {
    let mut mem = Memory::new();

    struct Test {}
    impl Mutator for Test {
        type Input = ();
        type Output = ();

        fn run(
            &self,
            view: &mut MutatorView,
            _input: Self::Input,
        ) -> Result<Self::Output, RuntimeError> {
            let empty: RawArray<u32> = RawArray::new();
            assert_eq!(empty.capacity(), 0);
            assert!(empty.as_ptr().is_none());

            let array: RawArray<u32> = RawArray::with_capacity(view, 10)?;
            assert_eq!(array.capacity(), 10);
            let ptr = array.as_ptr().unwrap();
            // forty zeroed bytes
            let bytes = view.read_array(stickyimmix::rawptr::RawPtr::new(ptr.as_word()), 0, 40);
            assert_eq!(bytes, vec![0u8; 40]);

            let e = RawArray::<u32>::with_capacity(view, u32::MAX).err().unwrap();
            assert_eq!(*e.error_kind(), ErrorKind::BadAllocationRequest);
            // larger than a block can hold
            let e = RawArray::<u32>::with_capacity(view, 10000).err().unwrap();
            assert_eq!(*e.error_kind(), ErrorKind::BadAllocationRequest);
            Ok(())
        }
    }

    let test = Test {};
    mem.mutate(&test, ()).unwrap();
}
