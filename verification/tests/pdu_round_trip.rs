//! Responses and requests across both directions of the codec.

use basic_snmp_agent::codec::{
    decode_pdu, encode_response, ErrorStatus, GetResponse, InboundPdu, RequestId,
};
use basic_snmp_agent::{Oid, Value, Varbind, VarbindValue};
use rasn_smi::v2::{ApplicationSyntax, ObjectSyntax, SimpleSyntax};
use rasn_snmp::v2::{GetRequest as RasnGetRequest, Pdu, Pdus, Response, VarBindValue};

fn value_from_object_syntax(syntax: ObjectSyntax) -> Option<Value> {
    match syntax {
        ObjectSyntax::Simple(SimpleSyntax::Integer(raw_integer)) => {
            raw_integer.try_into().ok().map(Value::Integer32)
        }
        ObjectSyntax::Simple(SimpleSyntax::String(bytes)) => {
            Some(Value::OctetString(bytes.to_vec()))
        }
        ObjectSyntax::Simple(SimpleSyntax::ObjectId(oid)) => {
            Oid::try_from(oid.as_ref().to_vec()).ok().map(Value::ObjectIdentifier)
        }
        ObjectSyntax::ApplicationWide(ApplicationSyntax::Address(ip)) => {
            Some(Value::IpAddress(*ip.0))
        }
        ObjectSyntax::ApplicationWide(ApplicationSyntax::Counter(c)) => Some(Value::Counter32(c.0)),
        ObjectSyntax::ApplicationWide(ApplicationSyntax::BigCounter(c)) => {
            Some(Value::Counter64(c.0))
        }
        ObjectSyntax::ApplicationWide(ApplicationSyntax::Unsigned(u)) => Some(Value::Gauge32(u.0)),
        ObjectSyntax::ApplicationWide(ApplicationSyntax::Ticks(t)) => Some(Value::TimeTicks(t.0)),
        ObjectSyntax::ApplicationWide(ApplicationSyntax::Arbitrary(o)) => {
            Some(Value::Opaque(o.as_ref().to_vec()))
        }
    }
}

#[test]
fn mod_encode_decode_empty_varbinds() {

    let pdu = GetResponse {
        request_id: RequestId::from(100),
        error_status: ErrorStatus::NoError,
        error_index: 0,
        varbinds: vec![],
    };
    let encoded_response = encode_response(&pdu).unwrap();
    assert!(
        !encoded_response.is_empty(),
        "encoded bytes must not be empty even with no varbinds"
    );

    let decoded: Pdus = rasn::ber::decode(&encoded_response).expect("must decode");
    match decoded {
        Pdus::Response(Response(inner)) => {
            assert_eq!(inner.variable_bindings.len(), 0);
        }
        other => panic!("expected Response, got {other:?}"),
    }

    let get_req = RasnGetRequest(Pdu {
        request_id: 200,
        error_status: 0,
        error_index: 0,
        variable_bindings: vec![],
    });
    let raw_ber = rasn::ber::encode(&get_req).unwrap();
    let decode_result = decode_pdu(&raw_ber).unwrap();
    match decode_result {
        InboundPdu::GetRequest(req) => {
            assert_eq!(req.request_id, RequestId::from(200));
            assert_eq!(req.varbinds.len(), 0);
        }
        other => panic!("expected GetRequest, got {other:?}"),
    }
}

#[test]
fn mod_all_value_types_survive_response_encode_decode() {
    let oid_base = "1.3.6.1.2.1.1";
    let values = vec![
        Value::Integer32(-42),
        Value::OctetString(b"test".to_vec()),
        Value::Counter32(1_000_000),
        Value::Counter64(u64::MAX / 2),
        Value::Gauge32(500),
        Value::TimeTicks(99_999),
        Value::IpAddress([192, 168, 0, 1]),
        Value::Opaque(vec![0xAB, 0xCD]),
        Value::ObjectIdentifier("1.3.6.1.2.1.1.1.0".parse().unwrap()),
    ];
    for (i, value) in values.into_iter().enumerate() {
        let oid: Oid = format!("{oid_base}.{i}.0").parse().unwrap();
        let pdu = GetResponse {
            request_id: RequestId::from(i32::try_from(i).expect("loop index fits i32")),
            error_status: ErrorStatus::NoError,
            error_index: 0,
            varbinds: vec![Varbind {
                oid: oid.clone(),
                value: VarbindValue::Value(value.clone()),
            }],
        };
        let encoded_response = encode_response(&pdu).unwrap();
        let decoded: Pdus = rasn::ber::decode(&encoded_response).expect("must decode");
        match decoded {
            Pdus::Response(Response(inner)) => {
                let vb = &inner.variable_bindings[0];
                assert_eq!(vb.name.as_ref(), oid.as_slice());
                if let VarBindValue::Value(syntax) = vb.value.clone() {
                    let recovered =
                        value_from_object_syntax(syntax).expect("should convert back");
                    assert_eq!(recovered, value, "round-trip failed for {value:?}");
                } else {
                    panic!("expected Value variant in VarBindValue");
                }
            }
            other => panic!("expected Response, got {other:?}"),
        }
    }
}
