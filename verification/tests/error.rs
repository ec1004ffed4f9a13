use backside::error::Error;

#[test]
fn every_error_has_its_message() {
    assert_eq!(Error::StructureInvalid.message(), "basic file structure invalid");
    assert_eq!(Error::FieldInvalid.message(), "field value invalid");
    assert_eq!(Error::StyleUndefined.message(), "style does not exist or was not defined");
    assert_eq!(Error::OCInvalid.message(), "invalid override code");
    assert_eq!(Error::OCInvalidParams.message(), "invalid override code parameters");
    assert_eq!(Error::OCMissingParams.message(), "missing override code parameters");
}
