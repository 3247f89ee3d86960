use ocypode::common::error::WireError;
use ocypode::protocol::error::DecodeError;
use ocypode::topic::TopicError;

#[test]
fn wire_errors_keep_their_numbers_as_decode_errors() {
    assert_eq!(
        DecodeError::from(WireError::BufferTooShort { expected: 7, actual: 3 }),
        DecodeError::BufferTooShort { expected: 7, actual: 3 }
    );
    assert_eq!(
        DecodeError::from(WireError::VariableLengthOverflow),
        DecodeError::VariableLengthOverflow
    );
}

#[test]
fn topic_errors_are_wrapped_as_invalid_topic() {
    assert_eq!(
        DecodeError::from_topic_error(TopicError::EmptyLayer),
        DecodeError::InvalidTopic(TopicError::EmptyLayer)
    );
    assert_eq!(
        DecodeError::from_topic_error(TopicError::Wire(WireError::VariableLengthOverflow)),
        DecodeError::InvalidTopic(TopicError::Wire(WireError::VariableLengthOverflow))
    );
    assert_eq!(
        DecodeError::from_topic_error(TopicError::ExceedsMaxLayerCount { count: 9 }),
        DecodeError::InvalidTopic(TopicError::ExceedsMaxLayerCount { count: 9 })
    );
}
